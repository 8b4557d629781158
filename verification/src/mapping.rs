//! The translation mapping — one glyph character stands for one canonical
//! instruction character — and the translator that rewrites a glyph
//! program into canonical code, dropping every unmapped character.
//!
//! The mapping is built from line-oriented source text: each line's first
//! character is the glyph and its last character the canonical instruction
//! it stands for; a one-character line maps that character to itself;
//! empty lines are skipped and later lines overwrite earlier duplicate
//! glyphs. A line ends at `'\n'`, and one carriage return directly before
//! the line end (or the end of the text) is not part of the line.

use std::collections::HashMap;
use vstd::map::*;
use vstd::prelude::*;

verus! {

broadcast use vstd::std_specs::hash::group_hash_axioms;

/// The line with one trailing carriage return removed, if it has one.
pub open spec fn strip_cr(line: Seq<char>) -> Seq<char> {
    if line.len() > 0 && line.last() == '\r' {
        line.drop_last()
    } else {
        line
    }
}

/// The mapping after one line: an empty line changes nothing, any other
/// maps its first character to its last, overwriting an earlier entry.
pub open spec fn line_inserted(m: Map<char, char>, line: Seq<char>) -> Map<char, char> {
    if line.len() == 0 {
        m
    } else {
        m.insert(line[0], line.last())
    }
}

/// The rest of the mapping builder's pass: `m` holds the lines already
/// taken, `cur` the characters of the current line so far, `rest` the
/// text still unread.
pub open spec fn build_rec(m: Map<char, char>, cur: Seq<char>, rest: Seq<char>) -> Map<char, char>
    decreases rest.len(),
{
    if rest.len() == 0 {
        line_inserted(m, strip_cr(cur))
    } else if rest[0] == '\n' {
        build_rec(line_inserted(m, strip_cr(cur)), Seq::empty(), rest.drop_first())
    } else {
        build_rec(m, cur.push(rest[0]), rest.drop_first())
    }
}

/// The translation mapping that line-oriented source text describes.
pub open spec fn mapping_of(text: Seq<char>) -> Map<char, char> {
    build_rec(Map::empty(), Seq::empty(), text)
}

/// A translation mapping: each glyph character stands for one canonical
/// instruction character. Keyed by the glyph's code point.
pub struct Translation {
    entries: HashMap<u32, char>,
}

impl View for Translation {
    type V = Map<char, char>;

    closed spec fn view(&self) -> Map<char, char> {
        Map::new(
            |c: char| self.entries@.contains_key(c as u32),
            |c: char| self.entries@[c as u32],
        )
    }
}

/// Two characters with the same code point are the same character.
proof fn lemma_char_code_injective(a: char, b: char)
    requires
        a as u32 == b as u32,
    ensures
        a == b,
{
}

impl Translation {
    /// The empty mapping.
    pub fn new() -> (t: Translation)
        ensures
            t@ == Map::<char, char>::empty(),
    {
        let t = Translation { entries: HashMap::new() };
        proof {
            assert(t@ =~= Map::<char, char>::empty());
        }
        t
    }

    /// Map `glyph` to `target`, overwriting any earlier entry for `glyph`.
    pub fn insert(&mut self, glyph: char, target: char)
        ensures
            final(self)@ == old(self)@.insert(glyph, target),
    {
        self.entries.insert(glyph as u32, target);
        proof {
            let m0 = old(self)@;
            let m1 = self@;
            let m2 = m0.insert(glyph, target);
            assert(self.entries@ == old(self).entries@.insert(glyph as u32, target));
            assert_maps_equal!(m1, m2, c => {
                if c != glyph {
                    if c as u32 == glyph as u32 {
                        lemma_char_code_injective(c, glyph);
                    }
                    assert(self.entries@.contains_key(c as u32)
                        == old(self).entries@.contains_key(c as u32));
                } else {
                    assert(m1.contains_key(glyph));
                    assert(m1[glyph] == target);
                }
            });
        }
    }

    /// The canonical instruction `glyph` stands for, if any.
    pub fn lookup(&self, glyph: char) -> (r: Option<char>)
        ensures
            r == if self@.contains_key(glyph) {
                Some(self@[glyph])
            } else {
                None::<char>
            },
    {
        match self.entries.get(&(glyph as u32)) {
            Some(t) => Some(*t),
            None => None,
        }
    }
}

/// Parse translation-source text into a mapping, line by line: a line's
/// first character becomes the glyph, its last character the canonical
/// instruction (the same character for a one-character line). Empty lines
/// are skipped, later lines silently overwrite earlier duplicate glyphs,
/// and no line content is ever an error.
pub fn load_translation(src: &str) -> (t: Translation)
    ensures
        t@ == mapping_of(src@),
{
    let n = src.unicode_len();
    let mut t = Translation::new();
    proof {
        assert(src@.subrange(0, 0) =~= Seq::<char>::empty());
        assert(src@.skip(0) =~= src@);
    }
    let mut ls: usize = 0;
    let mut i: usize = 0;
    while i < n
        invariant
            n == src@.len(),
            ls <= i <= n,
            build_rec(t@, src@.subrange(ls as int, i as int), src@.skip(i as int)) == mapping_of(
                src@,
            ),
        decreases n - i,
    {
        let ghost cur = src@.subrange(ls as int, i as int);
        let ghost rest = src@.skip(i as int);
        let c = src.get_char(i);
        proof {
            assert(rest[0] == src@[i as int]);
        }
        if c == '\n' {
            let mut le: usize = i;
            if le > ls && src.get_char(le - 1) == '\r' {
                le = le - 1;
            }
            proof {
                assert(strip_cr(cur) =~= src@.subrange(ls as int, le as int));
            }
            if le > ls {
                let g = src.get_char(ls);
                let v = src.get_char(le - 1);
                t.insert(g, v);
            }
            ls = i + 1;
            proof {
                assert(src@.subrange(ls as int, (i + 1) as int) =~= Seq::<char>::empty());
                assert(rest.drop_first() =~= src@.skip((i + 1) as int));
            }
        } else {
            proof {
                assert(src@.subrange(ls as int, (i + 1) as int) =~= cur.push(src@[i as int]));
                assert(rest.drop_first() =~= src@.skip((i + 1) as int));
            }
        }
        i = i + 1;
    }
    let ghost cur = src@.subrange(ls as int, n as int);
    proof {
        assert(src@.skip(n as int) =~= Seq::<char>::empty());
    }
    let mut le: usize = n;
    if le > ls && src.get_char(le - 1) == '\r' {
        le = le - 1;
    }
    proof {
        assert(strip_cr(cur) =~= src@.subrange(ls as int, le as int));
    }
    if le > ls {
        let g = src.get_char(ls);
        let v = src.get_char(le - 1);
        t.insert(g, v);
    }
    t
}

/// The canonical program a glyph program translates to: each mapped
/// character replaced by its canonical instruction, in order, each
/// unmapped character dropped.
pub open spec fn translate_spec(s: Seq<char>, m: Map<char, char>) -> Seq<char>
    decreases s.len(),
{
    if s.len() == 0 {
        Seq::empty()
    } else {
        translate_spec(s.drop_last(), m) + if m.contains_key(s.last()) {
            seq![m[s.last()]]
        } else {
            Seq::empty()
        }
    }
}

/// Relies on String::push: appends exactly the given character to the
/// end of the string.
#[verifier::external_body]
fn push_char(s: &mut String, c: char)
    ensures
        final(s)@ == old(s)@.push(c),
{
    s.push(c);
}

/// Translate a glyph program through the mapping: map each character of
/// the source in order, concatenating the results and silently dropping
/// every character with no entry. Never fails; an empty result is valid.
pub fn translate(source: &str, translation: &Translation) -> (r: String)
    ensures
        r@ == translate_spec(source@, translation@),
{
    let n = source.unicode_len();
    let mut r = String::new();
    let mut i: usize = 0;
    while i < n
        invariant
            n == source@.len(),
            i <= n,
            r@ == translate_spec(source@.subrange(0, i as int), translation@),
        decreases n - i,
    {
        let c = source.get_char(i);
        match translation.lookup(c) {
            Some(v) => push_char(&mut r, v),
            None => (),
        }
        proof {
            let pre = source@.subrange(0, (i + 1) as int);
            assert(pre.drop_last() =~= source@.subrange(0, i as int));
            assert(pre.last() == source@[i as int]);
            if translation@.contains_key(source@[i as int]) {
                assert(r@ =~= translate_spec(pre.drop_last(), translation@) + seq![
                    translation@[pre.last()],
                ]);
            } else {
                assert(r@ =~= translate_spec(pre.drop_last(), translation@) + Seq::<
                    char,
                >::empty());
            }
        }
        i = i + 1;
    }
    proof {
        assert(source@.subrange(0, n as int) =~= source@);
    }
    r
}

/// Translating through an identity mapping — every glyph it knows maps to
/// that same character — yields the source with exactly the unmapped
/// characters removed.
pub proof fn lemma_translate_identity(s: Seq<char>, m: Map<char, char>)
    requires
        forall|c: char| #[trigger] m.contains_key(c) ==> m[c] == c,
    ensures
        translate_spec(s, m) == s.filter(|c: char| m.contains_key(c)),
    decreases s.len(),
{
    reveal(Seq::filter);
    if s.len() == 0 {
        assert(translate_spec(s, m) =~= s.filter(|c: char| m.contains_key(c)));
    } else {
        lemma_translate_identity(s.drop_last(), m);
        if m.contains_key(s.last()) {
            assert(translate_spec(s, m) =~= s.drop_last().filter(|c: char| m.contains_key(c)).push(
                s.last(),
            ));
        } else {
            assert(translate_spec(s, m) =~= s.drop_last().filter(|c: char| m.contains_key(c)));
        }
        assert(translate_spec(s, m) =~= s.filter(|c: char| m.contains_key(c)));
    }
}

/// A translation-source line holding the single character `c` maps the
/// glyph `c` to the canonical instruction `c` itself. (A lone newline
/// makes an empty line, and a lone carriage return is stripped: neither
/// adds an entry.)
pub proof fn lemma_single_char_line(c: char)
    requires
        c != '\n',
        c != '\r',
    ensures
        mapping_of(seq![c]) == Map::<char, char>::empty().insert(c, c),
{
    let s = seq![c];
    assert(s.drop_first() =~= Seq::<char>::empty());
    assert(Seq::<char>::empty().push(c) =~= s);
    assert(build_rec(Map::empty(), Seq::empty(), s) == build_rec(
        Map::empty(),
        s,
        Seq::<char>::empty(),
    ));
    assert(strip_cr(s) == s);
    assert(s[0] == c && s.last() == c);
}

} // verus!
