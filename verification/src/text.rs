//! Small text helpers used when generating build files: decimal numbers, escaped paths and
//! path joining.

use vstd::prelude::*;
use vstd::utf8::{decode_utf8, valid_utf8};

verus! {

/// The character of a decimal digit.
pub open spec fn digit_char(d: int) -> char {
    if d == 0 {
        '0'
    } else if d == 1 {
        '1'
    } else if d == 2 {
        '2'
    } else if d == 3 {
        '3'
    } else if d == 4 {
        '4'
    } else if d == 5 {
        '5'
    } else if d == 6 {
        '6'
    } else if d == 7 {
        '7'
    } else if d == 8 {
        '8'
    } else {
        '9'
    }
}

/// The decimal representation of a number, without leading zeros.
pub open spec fn decimal(n: nat) -> Seq<char>
    decreases n,
{
    if n < 10 {
        seq![digit_char(n as int)]
    } else {
        decimal(n / 10) + seq![digit_char((n % 10) as int)]
    }
}

/// Append the decimal representation of `n` to `out`.
pub fn push_decimal(out: &mut String, n: u64)
    ensures
        final(out)@ == old(out)@ + decimal(n as nat),
    decreases n,
{
    if n >= 10 {
        push_decimal(out, n / 10);
    }
    let d: usize = (n % 10) as usize;
    proof {
        reveal_strlit("0123456789");
    }
    let digits = "0123456789";
    let c = digits.substring_char(d, d + 1);
    assert(c@ =~= seq![digit_char(d as int)]);
    out.append(c);
}

/// The decimal representation of `n` as a string.
pub fn decimal_string(n: u64) -> (r: String)
    ensures
        r@ == decimal(n as nat),
{
    let mut s = String::new();
    push_decimal(&mut s, n);
    assert(s@ =~= decimal(n as nat));
    s
}

/// The character of a hexadecimal digit, in lower case.
pub open spec fn hex_digit(d: int) -> char {
    if d < 10 {
        digit_char(d)
    } else if d == 10 {
        'a'
    } else if d == 11 {
        'b'
    } else if d == 12 {
        'c'
    } else if d == 13 {
        'd'
    } else if d == 14 {
        'e'
    } else {
        'f'
    }
}

/// The hexadecimal representation of a number, in lower case, without leading zeros.
pub open spec fn hex(n: nat) -> Seq<char>
    decreases n,
{
    if n < 16 {
        seq![hex_digit(n as int)]
    } else {
        hex(n / 16) + seq![hex_digit((n % 16) as int)]
    }
}

/// A byte as two hexadecimal digits, in lower case.
pub open spec fn hex2(b: u8) -> Seq<char> {
    seq![hex_digit((b / 16) as int), hex_digit((b % 16) as int)]
}

/// Bytes as two-digit hexadecimal numbers, separated by a comma and a space.
pub open spec fn hex_list(s: Seq<u8>) -> Seq<char>
    decreases s.len(),
{
    if s.len() == 0 {
        Seq::empty()
    } else if s.len() == 1 {
        hex2(s[0])
    } else {
        hex_list(s.drop_last()) + ", "@ + hex2(s.last())
    }
}

/// Optional bytes as they are shown for debugging with two-digit hexadecimal numbers:
/// `None`, or `Some([..])` with the bytes listed.
pub open spec fn debug_hex_bytes(o: Option<Seq<u8>>) -> Seq<char> {
    match o {
        Some(s) => "Some(["@ + hex_list(s) + "])"@,
        None => "None"@,
    }
}

/// The string of one hexadecimal digit.
fn hex_digit_str(d: u64) -> (r: &'static str)
    requires
        d < 16,
    ensures
        r@ == seq![hex_digit(d as int)],
{
    proof {
        reveal_strlit("0123456789abcdef");
    }
    let digits = "0123456789abcdef";
    let c = digits.substring_char(d as usize, d as usize + 1);
    assert(c@ =~= seq![hex_digit(d as int)]);
    c
}

/// Append the hexadecimal representation of `n` to `out`.
pub fn push_hex(out: &mut String, n: u64)
    ensures
        final(out)@ == old(out)@ + hex(n as nat),
    decreases n,
{
    if n >= 16 {
        push_hex(out, n / 16);
    }
    out.append(hex_digit_str(n % 16));
}

/// Append a byte as two hexadecimal digits to `out`.
pub fn push_hex2(out: &mut String, b: u8)
    ensures
        final(out)@ == old(out)@ + hex2(b),
{
    out.append(hex_digit_str((b / 16) as u64));
    out.append(hex_digit_str((b % 16) as u64));
}

/// Optional bytes as they are shown for debugging with two-digit hexadecimal numbers.
pub fn debug_hex_string(o: &Option<Vec<u8>>) -> (r: String)
    ensures
        r@ == debug_hex_bytes(
            match o {
                Some(v) => Some(v@),
                None => None,
            },
        ),
{
    match o {
        None => "None".to_string(),
        Some(v) => {
            let mut out = "Some([".to_string();
            let ghost start = out@;
            let mut i: usize = 0;
            while i < v.len()
                invariant
                    i <= v.len(),
                    out@ == start + hex_list(v@.take(i as int)),
                decreases v.len() - i,
            {
                assert(v@.take(i as int + 1).drop_last() =~= v@.take(i as int));
                if i > 0 {
                    out.append(", ");
                }
                push_hex2(&mut out, v[i]);
                proof {
                    if i == 0 {
                        assert(hex_list(v@.take(1)) == hex2(v@[0]));
                    }
                }
                assert(out@ =~= start + hex_list(v@.take(i as int + 1)));
                i = i + 1;
            }
            out.append("])");
            assert(v@.take(i as int) =~= v@);
            out
        },
    }
}

/// How one character of a path is written once escaped: a backslash and a space each get a
/// backslash in front.
pub open spec fn escape_char(c: char) -> Seq<char> {
    if c == '\\' {
        seq!['\\', '\\']
    } else if c == ' ' {
        seq!['\\', ' ']
    } else {
        seq![c]
    }
}

/// A path with every backslash and space escaped by a backslash.
pub open spec fn escaped(s: Seq<char>) -> Seq<char>
    decreases s.len(),
{
    if s.len() == 0 {
        Seq::empty()
    } else {
        escaped(s.drop_last()) + escape_char(s.last())
    }
}

/// Put escapes into a path containing \ and " "
pub fn escape_path(path: &str) -> (r: String)
    ensures
        r@ == escaped(path@),
{
    let n = path.unicode_len();
    let mut out = String::new();
    let mut i: usize = 0;
    while i < n
        invariant
            n == path@.len(),
            i <= n,
            out@ == escaped(path@.take(i as int)),
        decreases n - i,
    {
        let c = path.get_char(i);
        assert(path@.take(i + 1).drop_last() =~= path@.take(i as int));
        if c == '\\' {
            proof {
                reveal_strlit("\\\\");
            }
            out.append("\\\\");
        } else if c == ' ' {
            proof {
                reveal_strlit("\\ ");
            }
            out.append("\\ ");
        } else {
            let one = path.substring_char(i, i + 1);
            assert(one@ =~= seq![c]);
            out.append(one);
        }
        i = i + 1;
    }
    assert(path@.take(n as int) =~= path@);
    out
}

/// What pushing `rel` onto the path `base` gives: an absolute `rel` replaces `base`; otherwise
/// a separator is put between them unless `base` is empty or already ends in one.
pub open spec fn path_pushed(base: Seq<char>, rel: Seq<char>) -> Seq<char> {
    if rel.len() > 0 && rel[0] == '/' {
        rel
    } else if base.len() > 0 && base.last() != '/' {
        base + seq!['/'] + rel
    } else {
        base + rel
    }
}

/// Push a relative or absolute path onto a base path, as a path buffer does on unix.
pub fn path_push(base: &str, rel: &str) -> (r: String)
    ensures
        r@ == path_pushed(base@, rel@),
{
    let rl = rel.unicode_len();
    if rl > 0 && rel.get_char(0) == '/' {
        return String::from_str(rel);
    }
    let bl = base.unicode_len();
    let mut out = String::from_str(base);
    if bl > 0 && base.get_char(bl - 1) != '/' {
        proof {
            reveal_strlit("/");
        }
        out.append("/");
    }
    out.append(rel);
    out
}

/// The text that the debug format of a path gives: the path in quotes, with some characters
/// escaped.
pub uninterp spec fn path_debug_text(path: Seq<char>) -> Seq<char>;

/// The debug format of a path, as written into build rules that copy files.
///
/// Trusted: calls the standard library's `Debug` formatting of `std::path::Path`. The contract
/// names its result `path_debug_text` of the path's text; which characters it escapes, and how,
/// is left unsaid.
#[verifier::external_body]
pub fn path_debug(path: &str) -> (r: String)
    ensures
        r@ == path_debug_text(path@),
{
    format!("{:?}", std::path::Path::new(path))
}

/// The text that a byte string holds, where it is valid utf-8.
///
/// Trusted: calls `std::str::from_utf8`. The contract states what its documentation says: it
/// succeeds exactly on valid utf-8, and the text is then the decoding of the bytes (validity
/// and decoding as vstd defines them).
#[verifier::external_body]
pub fn utf8_text(bytes: &[u8]) -> (r: Option<String>)
    ensures
        r is Some <==> valid_utf8(bytes@),
        r matches Some(t) ==> t@ == decode_utf8(bytes@),
{
    std::str::from_utf8(bytes).ok().map(|t| t.to_string())
}

} // verus!
