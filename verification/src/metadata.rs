//! The episode metadata record: four free-form text fields, where the empty
//! string is the meaningful "absent" value, and its JSON rendering.

use vstd::prelude::*;
use crate::chars::{str_to_chars, chars_to_string, seq_contains, lemma_contains_at};

verus! {

/// Episode metadata extracted from a page. Fields default to the empty
/// string when the page does not provide them.
#[derive(Debug, Clone)]
pub struct Metadata {
    pub episode_title: String,
    pub description: String,
    pub show_title: String,
    pub publish_date: String,
}

/// The mathematical view of a `Metadata` record.
pub ghost struct MetadataSpec {
    pub episode_title: Seq<char>,
    pub description: Seq<char>,
    pub show_title: Seq<char>,
    pub publish_date: Seq<char>,
}

impl View for Metadata {
    type V = MetadataSpec;

    open spec fn view(&self) -> MetadataSpec {
        MetadataSpec {
            episode_title: self.episode_title@,
            description: self.description@,
            show_title: self.show_title@,
            publish_date: self.publish_date@,
        }
    }
}

/// The record with every field absent.
pub open spec fn empty_metadata() -> MetadataSpec {
    MetadataSpec {
        episode_title: Seq::empty(),
        description: Seq::empty(),
        show_title: Seq::empty(),
        publish_date: Seq::empty(),
    }
}

impl Metadata {
    /// A record with all four fields empty.
    pub fn new() -> (r: Metadata)
        ensures
            r@ == empty_metadata(),
    {
        Metadata {
            episode_title: String::new(),
            description: String::new(),
            show_title: String::new(),
            publish_date: String::new(),
        }
    }
}

/// The hexadecimal digit character for `n` in `0..16`.
pub open spec fn hex_digit(n: int) -> char {
    if n < 10 {
        crate::status::dec_digit(n)
    } else if n == 10 {
        'a'
    } else if n == 11 {
        'b'
    } else if n == 12 {
        'c'
    } else if n == 13 {
        'd'
    } else if n == 14 {
        'e'
    } else {
        'f'
    }
}

/// The JSON string escaping of one character: quote and backslash escaped,
/// the named control escapes, `\u00..` for the other control characters,
/// and every other character kept as is.
pub open spec fn esc_char(c: char) -> Seq<char> {
    if c == '"' {
        seq!['\\', '"']
    } else if c == '\\' {
        seq!['\\', '\\']
    } else if c == '\n' {
        seq!['\\', 'n']
    } else if c == '\t' {
        seq!['\\', 't']
    } else if c == '\r' {
        seq!['\\', 'r']
    } else if c == '\u{8}' {
        seq!['\\', 'b']
    } else if c == '\u{c}' {
        seq!['\\', 'f']
    } else if (c as u32) < 0x20 {
        seq!['\\', 'u', '0', '0', hex_digit(c as u32 as int / 16), hex_digit(c as u32 as int % 16)]
    } else {
        seq![c]
    }
}

/// The JSON string escaping of a whole string.
pub open spec fn esc(s: Seq<char>) -> Seq<char>
    decreases s.len(),
{
    if s.len() == 0 {
        Seq::empty()
    } else {
        esc_char(s[0]) + esc(s.skip(1))
    }
}

proof fn lemma_esc_push(s: Seq<char>, c: char)
    ensures
        esc(s.push(c)) == esc(s) + esc_char(c),
    decreases s.len(),
{
    if s.len() == 0 {
        assert(s.push(c)[0] == c);
        assert(s.push(c).skip(1) =~= Seq::<char>::empty());
        assert(esc(s.push(c).skip(1)) =~= Seq::<char>::empty());
        assert(esc(s.push(c)) =~= esc_char(c));
        assert(esc(s) + esc_char(c) =~= esc_char(c));
    } else {
        assert(s.push(c)[0] == s[0]);
        assert(s.push(c).skip(1) =~= s.skip(1).push(c));
        lemma_esc_push(s.skip(1), c);
        assert(esc_char(s[0]) + (esc(s.skip(1)) + esc_char(c)) =~= (esc_char(s[0]) + esc(
            s.skip(1),
        )) + esc_char(c));
    }
}

/// The JSON document the metadata serializes to: an object with exactly the
/// four keys, in order, each value a JSON string.
pub open spec fn metadata_json(m: MetadataSpec) -> Seq<char> {
    "{\n  \"episode_title\": \""@ + esc(m.episode_title) + "\",\n  \"description\": \""@ + esc(
        m.description,
    ) + "\",\n  \"show_title\": \""@ + esc(m.show_title) + "\",\n  \"publish_date\": \""@ + esc(
        m.publish_date,
    ) + "\"\n}"@
}

/// The hexadecimal digit character for `d`.
fn hex_char(d: u32) -> (r: char)
    requires
        d < 16,
    ensures
        r == hex_digit(d as int),
{
    if d == 0 {
        '0'
    } else if d == 1 {
        '1'
    } else if d == 2 {
        '2'
    } else if d == 3 {
        '3'
    } else if d == 4 {
        '4'
    } else if d == 5 {
        '5'
    } else if d == 6 {
        '6'
    } else if d == 7 {
        '7'
    } else if d == 8 {
        '8'
    } else if d == 9 {
        '9'
    } else if d == 10 {
        'a'
    } else if d == 11 {
        'b'
    } else if d == 12 {
        'c'
    } else if d == 13 {
        'd'
    } else if d == 14 {
        'e'
    } else {
        'f'
    }
}

/// The JSON escaping of one character, as `esc_char` describes it.
fn esc_char_exec(c: char) -> (r: Vec<char>)
    ensures
        r@ == esc_char(c),
{
    let u = c as u32;
    let mut v: Vec<char> = Vec::new();
    if c == '"' {
        v.push('\\');
        v.push('"');
        proof {
            assert(v@ =~= seq!['\\', '"']);
        }
    } else if c == '\\' {
        v.push('\\');
        v.push('\\');
        proof {
            assert(v@ =~= seq!['\\', '\\']);
        }
    } else if c == '\n' {
        v.push('\\');
        v.push('n');
        proof {
            assert(v@ =~= seq!['\\', 'n']);
        }
    } else if c == '\t' {
        v.push('\\');
        v.push('t');
        proof {
            assert(v@ =~= seq!['\\', 't']);
        }
    } else if c == '\r' {
        v.push('\\');
        v.push('r');
        proof {
            assert(v@ =~= seq!['\\', 'r']);
        }
    } else if u == 0x8 {
        v.push('\\');
        v.push('b');
        proof {
            assert(c == '\u{8}');
            assert(v@ =~= seq!['\\', 'b']);
        }
    } else if u == 0xc {
        v.push('\\');
        v.push('f');
        proof {
            assert(c == '\u{c}');
            assert(v@ =~= seq!['\\', 'f']);
        }
    } else if u < 0x20 {
        v.push('\\');
        v.push('u');
        v.push('0');
        v.push('0');
        v.push(hex_char(u / 16));
        v.push(hex_char(u % 16));
        proof {
            assert(u / 16 == c as u32 as int / 16 && u % 16 == c as u32 as int % 16);
            assert(v@ =~= seq![
                '\\',
                'u',
                '0',
                '0',
                hex_digit(c as u32 as int / 16),
                hex_digit(c as u32 as int % 16),
            ]);
        }
    } else {
        v.push(c);
        proof {
            assert(v@ =~= seq![c]);
        }
    }
    v
}

/// Appends the JSON escaping of `s` to `out`.
fn push_escaped(out: &mut Vec<char>, s: &String)
    ensures
        final(out)@ == old(out)@ + esc(s@),
{
    let cs = str_to_chars(s.as_str());
    let n = cs.len();
    let mut i: usize = 0;
    proof {
        assert(cs@.subrange(0, 0) =~= Seq::<char>::empty());
        assert(out@ + esc(cs@.subrange(0, 0)) =~= out@);
    }
    while i < n
        invariant
            n == cs@.len(),
            cs@ == s@,
            0 <= i <= n,
            out@ == old(out)@ + esc(cs@.subrange(0, i as int)),
        decreases n - i,
    {
        let c = cs[i];
        let mut piece = esc_char_exec(c);
        out.append(&mut piece);
        proof {
            lemma_esc_push(cs@.subrange(0, i as int), c);
            assert(cs@.subrange(0, i + 1) =~= cs@.subrange(0, i as int).push(c));
            assert(out@ =~= (old(out)@ + esc(cs@.subrange(0, i as int))) + esc_char(c));
            assert(out@ =~= old(out)@ + esc(cs@.subrange(0, i + 1)));
        }
        i += 1;
    }
    proof {
        assert(cs@.subrange(0, n as int) =~= cs@);
    }
}

/// Appends the characters of a literal to `out`.
fn push_lit(out: &mut Vec<char>, lit: &str)
    ensures
        final(out)@ == old(out)@ + lit@,
{
    let mut cs = str_to_chars(lit);
    out.append(&mut cs);
}

/// Serializes the metadata to its JSON document: exactly the four keys, in
/// order, each value the field's text as a JSON string.
pub fn metadata_to_json(m: &Metadata) -> (r: String)
    ensures
        r@ == metadata_json(m@),
{
    let mut out: Vec<char> = Vec::new();
    push_lit(&mut out, "{\n  \"episode_title\": \"");
    push_escaped(&mut out, &m.episode_title);
    push_lit(&mut out, "\",\n  \"description\": \"");
    push_escaped(&mut out, &m.description);
    push_lit(&mut out, "\",\n  \"show_title\": \"");
    push_escaped(&mut out, &m.show_title);
    push_lit(&mut out, "\",\n  \"publish_date\": \"");
    push_escaped(&mut out, &m.publish_date);
    push_lit(&mut out, "\"\n}");
    proof {
        assert(out@ =~= metadata_json(m@));
    }
    chars_to_string(&out)
}

/// The serialized document contains each of the four keys together with its
/// exact escaped value, whatever the fields hold — empty fields included.
pub proof fn lemma_metadata_json_keys(m: MetadataSpec)
    ensures
        seq_contains(metadata_json(m), "\"episode_title\": \""@ + esc(m.episode_title) + "\""@),
        seq_contains(metadata_json(m), "\"description\": \""@ + esc(m.description) + "\""@),
        seq_contains(metadata_json(m), "\"show_title\": \""@ + esc(m.show_title) + "\""@),
        seq_contains(metadata_json(m), "\"publish_date\": \""@ + esc(m.publish_date) + "\""@),
{
    reveal_strlit("{\n  \"episode_title\": \"");
    reveal_strlit("\",\n  \"description\": \"");
    reveal_strlit("\",\n  \"show_title\": \"");
    reveal_strlit("\",\n  \"publish_date\": \"");
    reveal_strlit("\"\n}");
    reveal_strlit("\"episode_title\": \"");
    reveal_strlit("\"description\": \"");
    reveal_strlit("\"show_title\": \"");
    reveal_strlit("\"publish_date\": \"");
    reveal_strlit("\"");
    let j = metadata_json(m);
    let e1 = esc(m.episode_title);
    let e2 = esc(m.description);
    let e3 = esc(m.show_title);
    let e4 = esc(m.publish_date);
    let p1 = "\"episode_title\": \""@ + e1 + "\""@;
    let a1 = 4;
    assert(j.subrange(a1, a1 + p1.len() as int) =~= p1);
    lemma_contains_at(j, p1, a1);
    let p2 = "\"description\": \""@ + e2 + "\""@;
    let a2 = 22 + e1.len() as int + 5;
    assert(j.subrange(a2, a2 + p2.len() as int) =~= p2);
    lemma_contains_at(j, p2, a2);
    let p3 = "\"show_title\": \""@ + e3 + "\""@;
    let a3 = a2 + 16 + e2.len() as int + 5;
    assert(j.subrange(a3, a3 + p3.len() as int) =~= p3);
    lemma_contains_at(j, p3, a3);
    let p4 = "\"publish_date\": \""@ + e4 + "\""@;
    let a4 = a3 + 15 + e3.len() as int + 5;
    assert(j.subrange(a4, a4 + p4.len() as int) =~= p4);
    lemma_contains_at(j, p4, a4);
}

} // verus!
