//! Character-sequence helpers shared by the parser and the renderer:
//! lexicographic ordering of keys and string-literal escaping.

use vstd::prelude::*;

verus! {

/// Lexicographic order on character sequences, by code point. This is the
/// order in which an object's property keys are kept and rendered.
pub open spec fn seq_char_lt(a: Seq<char>, b: Seq<char>) -> bool
    decreases a.len(),
{
    if b.len() == 0 {
        false
    } else if a.len() == 0 {
        true
    } else if a[0] != b[0] {
        (a[0] as int) < (b[0] as int)
    } else {
        seq_char_lt(a.subrange(1, a.len() as int), b.subrange(1, b.len() as int))
    }
}

/// Decides `seq_char_lt(a@, b@)` executably.
pub fn str_lt(a: &str, b: &str) -> (r: bool)
    ensures
        r == seq_char_lt(a@, b@),
{
    let a_len: usize = a.unicode_len();
    let b_len: usize = b.unicode_len();
    let mut i: usize = 0;
    proof {
        assert(a@.subrange(0, a_len as int) =~= a@);
        assert(b@.subrange(0, b_len as int) =~= b@);
    }
    loop
        invariant
            i <= a_len,
            i <= b_len,
            a_len == a@.len(),
            b_len == b@.len(),
            forall|j: int| 0 <= j < i ==> a@[j] == b@[j],
            seq_char_lt(a@, b@) == seq_char_lt(a@.subrange(i as int, a_len as int), b@.subrange(i as int, b_len as int)),
        decreases a_len - i,
    {
        if i >= b_len {
            proof {
                assert(b@.subrange(i as int, b_len as int).len() == 0);
            }
            return false;
        }
        if i >= a_len {
            proof {
                assert(a@.subrange(i as int, a_len as int).len() == 0);
                assert(b@.subrange(i as int, b_len as int).len() > 0);
            }
            return true;
        }
        let ca = a.get_char(i);
        let cb = b.get_char(i);
        proof {
            let sa = a@.subrange(i as int, a_len as int);
            let sb = b@.subrange(i as int, b_len as int);
            assert(sa[0] == a@[i as int]);
            assert(sb[0] == b@[i as int]);
            assert(sa.subrange(1, sa.len() as int) =~= a@.subrange(i + 1, a_len as int));
            assert(sb.subrange(1, sb.len() as int) =~= b@.subrange(i + 1, b_len as int));
        }
        if ca != cb {
            return (ca as u32) < (cb as u32);
        }
        i = i + 1;
    }
}

/// The lowercase hexadecimal digit for a value below sixteen.
pub open spec fn hex_digit(d: int) -> char {
    if d == 0 { '0' } else if d == 1 { '1' } else if d == 2 { '2' } else if d == 3 { '3' }
    else if d == 4 { '4' } else if d == 5 { '5' } else if d == 6 { '6' } else if d == 7 { '7' }
    else if d == 8 { '8' } else if d == 9 { '9' } else if d == 10 { 'a' } else if d == 11 { 'b' }
    else if d == 12 { 'c' } else if d == 13 { 'd' } else if d == 14 { 'e' } else { 'f' }
}

/// Shortest lowercase hexadecimal form of a code point below 256.
pub open spec fn hex_seq(n: int) -> Seq<char> {
    if n < 16 {
        seq![hex_digit(n)]
    } else {
        seq![hex_digit(n / 16), hex_digit(n % 16)]
    }
}

/// How one character appears inside a double-quoted DSL string literal:
/// quote, backslash and the named control characters get a backslash
/// escape, other control characters a `\u{..}` escape, and everything
/// else stands as itself.
pub open spec fn spec_escape_char(c: char) -> Seq<char> {
    if c == '"' { seq!['\\', '"'] }
    else if c == '\\' { seq!['\\', '\\'] }
    else if c == '\n' { seq!['\\', 'n'] }
    else if c == '\r' { seq!['\\', 'r'] }
    else if c == '\t' { seq!['\\', 't'] }
    else if (c as u32) < 32 || (c as u32) == 127 { seq!['\\', 'u', '{'] + hex_seq(c as u32 as int) + seq!['}'] }
    else { seq![c] }
}

/// The body of a double-quoted DSL string literal for the given text.
pub open spec fn spec_escape(s: Seq<char>) -> Seq<char>
    decreases s.len(),
{
    if s.len() == 0 {
        Seq::empty()
    } else {
        spec_escape(s.drop_last()) + spec_escape_char(s.last())
    }
}

/// The lowercase hexadecimal digit for a value below sixteen, as text.
fn hex_digit_str(d: u32) -> (r: &'static str)
    requires
        d < 16,
    ensures
        r@ == seq![hex_digit(d as int)],
{
    if d == 0 { proof { reveal_strlit("0"); assert("0"@ =~= seq![hex_digit(0)]); } "0" }
    else if d == 1 { proof { reveal_strlit("1"); assert("1"@ =~= seq![hex_digit(1)]); } "1" }
    else if d == 2 { proof { reveal_strlit("2"); assert("2"@ =~= seq![hex_digit(2)]); } "2" }
    else if d == 3 { proof { reveal_strlit("3"); assert("3"@ =~= seq![hex_digit(3)]); } "3" }
    else if d == 4 { proof { reveal_strlit("4"); assert("4"@ =~= seq![hex_digit(4)]); } "4" }
    else if d == 5 { proof { reveal_strlit("5"); assert("5"@ =~= seq![hex_digit(5)]); } "5" }
    else if d == 6 { proof { reveal_strlit("6"); assert("6"@ =~= seq![hex_digit(6)]); } "6" }
    else if d == 7 { proof { reveal_strlit("7"); assert("7"@ =~= seq![hex_digit(7)]); } "7" }
    else if d == 8 { proof { reveal_strlit("8"); assert("8"@ =~= seq![hex_digit(8)]); } "8" }
    else if d == 9 { proof { reveal_strlit("9"); assert("9"@ =~= seq![hex_digit(9)]); } "9" }
    else if d == 10 { proof { reveal_strlit("a"); assert("a"@ =~= seq![hex_digit(10)]); } "a" }
    else if d == 11 { proof { reveal_strlit("b"); assert("b"@ =~= seq![hex_digit(11)]); } "b" }
    else if d == 12 { proof { reveal_strlit("c"); assert("c"@ =~= seq![hex_digit(12)]); } "c" }
    else if d == 13 { proof { reveal_strlit("d"); assert("d"@ =~= seq![hex_digit(13)]); } "d" }
    else if d == 14 { proof { reveal_strlit("e"); assert("e"@ =~= seq![hex_digit(14)]); } "e" }
    else { proof { reveal_strlit("f"); assert("f"@ =~= seq![hex_digit(15)]); } "f" }
}

/// Appends `spec_escape_char(c)` to `out`, where `c` stands at character
/// position `i` of `s`.
fn append_escaped_char(out: &mut String, s: &str, i: usize, c: char)
    requires
        i < s@.len(),
        i < usize::MAX,
        s@[i as int] == c,
    ensures
        final(out)@ == old(out)@ + spec_escape_char(c),
{
    if c == '"' {
        proof { reveal_strlit("\\\""); assert("\\\""@ =~= seq!['\\', '"']); }
        out.append("\\\"");
    } else if c == '\\' {
        proof { reveal_strlit("\\\\"); assert("\\\\"@ =~= seq!['\\', '\\']); }
        out.append("\\\\");
    } else if c == '\n' {
        proof { reveal_strlit("\\n"); assert("\\n"@ =~= seq!['\\', 'n']); }
        out.append("\\n");
    } else if c == '\r' {
        proof { reveal_strlit("\\r"); assert("\\r"@ =~= seq!['\\', 'r']); }
        out.append("\\r");
    } else if c == '\t' {
        proof { reveal_strlit("\\t"); assert("\\t"@ =~= seq!['\\', 't']); }
        out.append("\\t");
    } else {
        let u = c as u32;
        if u < 32 || u == 127 {
            proof { reveal_strlit("\\u{"); assert("\\u{"@ =~= seq!['\\', 'u', '{']); }
            out.append("\\u{");
            if u >= 16 {
                out.append(hex_digit_str(u / 16));
            }
            out.append(hex_digit_str(u % 16));
            proof { reveal_strlit("}"); assert("}"@ =~= seq!['}']); }
            out.append("}");
            proof {
                if u < 16 {
                    assert(hex_seq(u as int) =~= seq![hex_digit(u as int)]);
                    assert(u % 16 == u);
                } else {
                    assert(hex_seq(u as int) =~= seq![hex_digit(u as int / 16), hex_digit(u as int % 16)]);
                }
                assert(out@ =~= old(out)@ + spec_escape_char(c));
            }
        } else {
            let piece = s.substring_char(i, i + 1);
            proof {
                assert(piece@ =~= seq![c]);
            }
            out.append(piece);
        }
    }
}

/// Escapes the whole text for use inside a double-quoted DSL literal.
pub fn escape_str(s: &str) -> (out: String)
    ensures
        out@ == spec_escape(s@),
{
    let len: usize = s.unicode_len();
    let mut out = String::new();
    let mut i: usize = 0;
    while i < len
        invariant
            i <= len,
            len == s@.len(),
            out@ == spec_escape(s@.subrange(0, i as int)),
        decreases len - i,
    {
        let c = s.get_char(i);
        proof {
            let pre = s@.subrange(0, (i + 1) as int);
            assert(pre.drop_last() =~= s@.subrange(0, i as int));
            assert(pre.last() == c);
        }
        append_escaped_char(&mut out, s, i, c);
        i = i + 1;
    }
    proof {
        assert(s@.subrange(0, len as int) =~= s@);
    }
    out
}

} // verus!
