//! The records of an iso9660 image: its string classes, directory records, dates and path
//! table entries, each read from and written to bytes.

use vstd::prelude::*;
use vstd::slice::slice_subrange;
use vstd::utf8::valid_utf8;
use crate::text::utf8_text;

verus! {

/// Why a part of an iso9660 image could not be read.
#[derive(Clone, Copy, Debug, PartialEq, Eq)]
pub enum IsoError {
    /// The bytes of a text field are not valid utf-8
    InvalidUtf8,
    /// A text field holds a character that its string class does not allow
    InvalidCharacter,
    /// A record has the wrong size
    InvalidSize,
    /// A number field of a date does not hold a number that fits
    InvalidNumber,
    /// The type of a volume descriptor is unknown
    InvalidDescriptor,
    /// The image ends before a part that it must hold
    Truncated,
}

/// Defines what files are allowed to do on the filesystem
pub enum InterchangeLevel {
    /// Plain old dos filenames.
    /// 4GiB maximum filesize
    One,
    /// 30 characters allowed for filenames
    /// 4GiB maximum filesize
    Two,
    /// 30 characters allowed for filenames
    /// Effectively no limit on filesize
    Three,
}

// ------------------------------------------------------------------------------------------
// characters and string classes
// ------------------------------------------------------------------------------------------

/// A byte with ascii lower case letters made upper case.
pub open spec fn to_upper(b: u8) -> u8 {
    if 97 <= b <= 122 {
        (b - 32) as u8
    } else {
        b
    }
}

/// Bytes with ascii lower case letters made upper case.
pub open spec fn upper_seq(s: Seq<u8>) -> Seq<u8> {
    s.map_values(|b: u8| to_upper(b))
}

/// The characters of the "a" string class: upper case letters, digits, space and
/// `_ ! " & ' ( ) * + , - . / : ; < = > ?`.
pub open spec fn is_a_char(b: u8) -> bool {
    ||| 65 <= b <= 90
    ||| 48 <= b <= 57
    ||| b == 32
    ||| b == 95
    ||| b == 33
    ||| b == 34
    ||| b == 38
    ||| 39 <= b <= 47
    ||| 58 <= b <= 63
}

/// The characters of the "d" string class: upper case letters, digits, space and `_`.
pub open spec fn is_d_char(b: u8) -> bool {
    ||| 65 <= b <= 90
    ||| 48 <= b <= 57
    ||| b == 32
    ||| b == 95
}

/// The character belongs to the class, once made upper case.
pub open spec fn class_char(b: u8, d: bool) -> bool {
    if d {
        is_d_char(to_upper(b))
    } else {
        is_a_char(to_upper(b))
    }
}

/// Every character belongs to the class, once made upper case.
pub open spec fn all_class(s: Seq<u8>, d: bool) -> bool {
    forall|i: int| 0 <= i < s.len() ==> #[trigger] class_char(s[i], d)
}

/// The "a" characters of iso9660, byte by byte: the letters `A` to `Z`, the digits `0` to `9`,
/// and space `_ ! " & ' ( ) * + , - . / : ; < = > ?`.
pub open spec fn a_characters() -> Set<u8> {
    Set::new(|b: u8| 65 <= b <= 90 || 48 <= b <= 57).union(
        set![
            32u8, /* space */
            95u8, /* _ */
            33u8, /* ! */
            34u8, /* " */
            38u8, /* & */
            39u8, /* ' */
            40u8, /* ( */
            41u8, /* ) */
            42u8, /* * */
            43u8, /* + */
            44u8, /* , */
            45u8, /* - */
            46u8, /* . */
            47u8, /* / */
            58u8, /* : */
            59u8, /* ; */
            60u8, /* < */
            61u8, /* = */
            62u8, /* > */
            63u8 /* ? */
        ],
    )
}

/// The "d" characters, byte by byte: the letters `A` to `Z`, the digits `0` to `9`, space and
/// `_`.
pub open spec fn d_characters() -> Set<u8> {
    Set::new(|b: u8| 65 <= b <= 90 || 48 <= b <= 57).union(set![32u8, 95u8])
}

/// A string of the "a" or "d" class is accepted exactly when each of its characters, made
/// upper case, is one of the characters of the class.
pub proof fn lemma_string_classes(value: Seq<u8>)
    ensures
        all_class(value, false) <==> forall|i: int|
            0 <= i < value.len() ==> a_characters().contains(to_upper(#[trigger] value[i])),
        all_class(value, true) <==> forall|i: int|
            0 <= i < value.len() ==> d_characters().contains(to_upper(#[trigger] value[i])),
{
    assert forall|b: u8| #[trigger] is_a_char(b) <==> a_characters().contains(b) by {
        assert(set![32u8, 95u8, 33u8, 34u8, 38u8, 39u8, 40u8, 41u8, 42u8, 43u8, 44u8, 45u8, 46u8, 47u8, 58u8, 59u8, 60u8, 61u8, 62u8, 63u8].contains(b) <==> (b == 32 || b == 95 || b == 33 || b == 34 || b == 38 || b == 39 || b == 40 || b == 41 || b == 42 || b == 43 || b == 44 || b == 45 || b == 46 || b == 47 || b == 58 || b == 59 || b == 60 || b == 61 || b == 62 || b == 63));
    }
    assert forall|b: u8| #[trigger] is_d_char(b) <==> d_characters().contains(b) by {
    }
    assert(all_class(value, false) <==> forall|i: int|
        0 <= i < value.len() ==> a_characters().contains(to_upper(#[trigger] value[i]))) by {
        if all_class(value, false) {
            assert forall|i: int| 0 <= i < value.len() implies a_characters().contains(
                to_upper(#[trigger] value[i]),
            ) by {
                assert(class_char(value[i], false));
            }
        }
        if forall|i: int|
            0 <= i < value.len() ==> a_characters().contains(to_upper(#[trigger] value[i])) {
            assert forall|i: int| 0 <= i < value.len() implies #[trigger] class_char(
                value[i],
                false,
            ) by {
                assert(a_characters().contains(to_upper(value[i])));
            }
        }
    }
    assert(all_class(value, true) <==> forall|i: int|
        0 <= i < value.len() ==> d_characters().contains(to_upper(#[trigger] value[i]))) by {
        if all_class(value, true) {
            assert forall|i: int| 0 <= i < value.len() implies d_characters().contains(
                to_upper(#[trigger] value[i]),
            ) by {
                assert(class_char(value[i], true));
            }
        }
        if forall|i: int|
            0 <= i < value.len() ==> d_characters().contains(to_upper(#[trigger] value[i])) {
            assert forall|i: int| 0 <= i < value.len() implies #[trigger] class_char(
                value[i],
                true,
            ) by {
                assert(d_characters().contains(to_upper(value[i])));
            }
        }
    }
}

fn upper(b: u8) -> (r: u8)
    ensures
        r == to_upper(b),
{
    if 97 <= b && b <= 122 {
        b - 32
    } else {
        b
    }
}

fn in_class(b: u8, d: bool) -> (r: bool)
    ensures
        r == class_char(b, d),
{
    let u = upper(b);
    let letter_digit_space = (65 <= u && u <= 90) || (48 <= u && u <= 57) || u == 32 || u == 95;
    if d {
        letter_digit_space
    } else {
        letter_digit_space || u == 33 || u == 34 || u == 38 || (39 <= u && u <= 47) || (58 <= u
            && u <= 63)
    }
}

/// Check the characters of a string of a class and make it upper case.
pub(crate) fn class_string(value: &[u8], d: bool) -> (r: Result<Vec<u8>, IsoError>)
    ensures
        match r {
            Ok(s) => all_class(value@, d) && s@ == upper_seq(value@),
            Err(e) => !all_class(value@, d) && e == IsoError::InvalidCharacter,
        },
{
    let mut s: Vec<u8> = Vec::new();
    let mut i: usize = 0;
    while i < value.len()
        invariant
            i <= value@.len(),
            forall|j: int| 0 <= j < i ==> #[trigger] class_char(value@[j], d),
            s@ == upper_seq(value@.take(i as int)),
        decreases value.len() - i,
    {
        let b = value[i];
        if !in_class(b, d) {
            return Err(IsoError::InvalidCharacter);
        }
        s.push(upper(b));
        assert(s@ =~= upper_seq(value@.take(i + 1)));
        i = i + 1;
    }
    assert(value@.take(value@.len() as int) =~= value@);
    Ok(s)
}

/// One of the classes of strings defined by iso9660: the "a" characters
pub struct Iso9660StringA(pub Vec<u8>);

/// One of the classes of strings defined by iso9660: the "d" characters
pub struct Iso9660StringD(pub Vec<u8>);

impl Iso9660StringA {
    /// An empty string
    pub fn new() -> (r: Self)
        ensures
            r.0@.len() == 0,
    {
        Iso9660StringA(Vec::new())
    }

    /// Make a string of the class from text, made upper case; fails on a character outside
    /// the class
    pub fn try_from(value: &[u8]) -> (r: Result<Self, IsoError>)
        ensures
            match r {
                Ok(s) => all_class(value@, false) && s.0@ == upper_seq(value@),
                Err(e) => !all_class(value@, false) && e == IsoError::InvalidCharacter,
            },
    {
        match class_string(value, false) {
            Ok(s) => Ok(Iso9660StringA(s)),
            Err(e) => Err(e),
        }
    }
}

impl Iso9660StringD {
    /// An empty string
    pub fn new() -> (r: Self)
        ensures
            r.0@.len() == 0,
    {
        Iso9660StringD(Vec::new())
    }

    /// Make a string of the class from text, made upper case; fails on a character outside
    /// the class
    pub fn try_from(value: &[u8]) -> (r: Result<Self, IsoError>)
        ensures
            match r {
                Ok(s) => all_class(value@, true) && s.0@ == upper_seq(value@),
                Err(e) => !all_class(value@, true) && e == IsoError::InvalidCharacter,
            },
    {
        match class_string(value, true) {
            Ok(s) => Ok(Iso9660StringD(s)),
            Err(e) => Err(e),
        }
    }
}

// ------------------------------------------------------------------------------------------
// text fields
// ------------------------------------------------------------------------------------------

/// The ascii whitespace characters: space, tab, line feed, form feed and carriage return.
pub open spec fn is_ascii_ws(b: u8) -> bool {
    b == 32 || b == 9 || b == 10 || b == 12 || b == 13
}

/// Bytes without their trailing ascii whitespace.
pub open spec fn trim_ws(s: Seq<u8>) -> Seq<u8>
    decreases s.len(),
{
    if s.len() > 0 && is_ascii_ws(s.last()) {
        trim_ws(s.drop_last())
    } else {
        s
    }
}

/// Bytes without their trailing zero bytes.
pub open spec fn trim_nul(s: Seq<u8>) -> Seq<u8>
    decreases s.len(),
{
    if s.len() > 0 && s.last() == 0 {
        trim_nul(s.drop_last())
    } else {
        s
    }
}

pub(crate) fn trim_ws_end(s: &[u8]) -> (r: &[u8])
    ensures
        r@ == trim_ws(s@),
{
    let mut end: usize = s.len();
    assert(s@.take(s@.len() as int) =~= s@);
    while end > 0 && (s[end - 1] == 32 || s[end - 1] == 9 || s[end - 1] == 10 || s[end - 1] == 12
        || s[end - 1] == 13)
        invariant
            end <= s@.len(),
            trim_ws(s@.take(end as int)) == trim_ws(s@),
        decreases end,
    {
        assert(s@.take(end as int).drop_last() =~= s@.take(end - 1));
        end = end - 1;
    }
    assert(s@.take(s@.len() as int) =~= s@);
    let r = slice_subrange(s, 0, end);
    assert(r@ =~= s@.take(end as int));
    r
}

pub(crate) fn trim_nul_end(s: &[u8]) -> (r: &[u8])
    ensures
        r@ == trim_nul(s@),
{
    let mut end: usize = s.len();
    assert(s@.take(s@.len() as int) =~= s@);
    while end > 0 && s[end - 1] == 0
        invariant
            end <= s@.len(),
            trim_nul(s@.take(end as int)) == trim_nul(s@),
        decreases end,
    {
        assert(s@.take(end as int).drop_last() =~= s@.take(end - 1));
        end = end - 1;
    }
    assert(s@.take(s@.len() as int) =~= s@);
    let r = slice_subrange(s, 0, end);
    assert(r@ =~= s@.take(end as int));
    r
}

/// The bytes are valid utf-8.
pub(crate) fn utf8_valid(bytes: &[u8]) -> (r: bool)
    ensures
        r == valid_utf8(bytes@),
{
    utf8_text(bytes).is_some()
}

/// The text of a field: without trailing whitespace, and without trailing zero bytes when
/// `nul` is set.
pub open spec fn field_text(raw: Seq<u8>, nul: bool) -> Seq<u8> {
    if nul {
        trim_nul(trim_ws(raw))
    } else {
        trim_ws(raw)
    }
}

/// A text field can be read as a string of a class.
pub open spec fn field_ok(raw: Seq<u8>, nul: bool, d: bool) -> bool {
    valid_utf8(trim_ws(raw)) && all_class(field_text(raw, nul), d)
}

/// Why a text field cannot be read as a string of a class.
pub open spec fn field_error(raw: Seq<u8>) -> IsoError {
    if !valid_utf8(trim_ws(raw)) {
        IsoError::InvalidUtf8
    } else {
        IsoError::InvalidCharacter
    }
}

/// What reading a text field as a string of a class gives.
pub open spec fn field_result(raw: Seq<u8>, nul: bool, d: bool) -> Result<Seq<u8>, IsoError> {
    if field_ok(raw, nul, d) {
        Ok(upper_seq(field_text(raw, nul)))
    } else {
        Err(field_error(raw))
    }
}

/// Read the text of a field: trim it and check that it is utf-8.
pub(crate) fn read_text(raw: &[u8], nul: bool) -> (r: Result<&[u8], IsoError>)
    ensures
        match r {
            Ok(t) => valid_utf8(trim_ws(raw@)) && t@ == field_text(raw@, nul),
            Err(e) => !valid_utf8(trim_ws(raw@)) && e == IsoError::InvalidUtf8,
        },
{
    let t = trim_ws_end(raw);
    if !utf8_valid(t) {
        return Err(IsoError::InvalidUtf8);
    }
    if nul {
        Ok(trim_nul_end(t))
    } else {
        Ok(t)
    }
}

/// Read a text field as a string of a class: trim it, check that it is utf-8, and check its
/// characters.
fn read_field(raw: &[u8], nul: bool, d: bool) -> (r: Result<Vec<u8>, IsoError>)
    ensures
        match r {
            Ok(s) => field_result(raw@, nul, d) == Ok::<Seq<u8>, IsoError>(s@),
            Err(e) => field_result(raw@, nul, d) == Err::<Seq<u8>, IsoError>(e),
        },
{
    let t = trim_ws_end(raw);
    if !utf8_valid(t) {
        return Err(IsoError::InvalidUtf8);
    }
    let t = if nul {
        trim_nul_end(t)
    } else {
        t
    };
    class_string(t, d)
}

/// Read a text field that keeps its trailing zero bytes as a string of a class.
pub(crate) fn read_field_checked(raw: &[u8], d: bool) -> (r: Result<Vec<u8>, IsoError>)
    ensures
        match r {
            Ok(s) => field_result(raw@, false, d) == Ok::<Seq<u8>, IsoError>(s@),
            Err(e) => field_result(raw@, false, d) == Err::<Seq<u8>, IsoError>(e),
        },
{
    read_field(raw, false, d)
}

/// Read a text field as an "a" string.
fn read_field_a(raw: &[u8], nul: bool) -> (r: Result<Iso9660StringA, IsoError>)
    ensures
        match r {
            Ok(s) => field_result(raw@, nul, false) == Ok::<Seq<u8>, IsoError>(s.0@),
            Err(e) => field_result(raw@, nul, false) == Err::<Seq<u8>, IsoError>(e),
        },
{
    match read_field(raw, nul, false) {
        Ok(s) => Ok(Iso9660StringA(s)),
        Err(e) => Err(e),
    }
}

/// Read a text field as a "d" string.
fn read_field_d(raw: &[u8], nul: bool) -> (r: Result<Iso9660StringD, IsoError>)
    ensures
        match r {
            Ok(s) => field_result(raw@, nul, true) == Ok::<Seq<u8>, IsoError>(s.0@),
            Err(e) => field_result(raw@, nul, true) == Err::<Seq<u8>, IsoError>(e),
        },
{
    match read_field(raw, nul, true) {
        Ok(s) => Ok(Iso9660StringD(s)),
        Err(e) => Err(e),
    }
}

// ------------------------------------------------------------------------------------------
// numbers
// ------------------------------------------------------------------------------------------

/// A little endian 16 bit number at offset `o`.
pub open spec fn le16(s: Seq<u8>, o: int) -> u16 {
    (s[o] + 256 * s[o + 1]) as u16
}

/// A little endian 32 bit number at offset `o`.
pub open spec fn le32(s: Seq<u8>, o: int) -> u32 {
    (s[o] + 256 * s[o + 1] + 65536 * s[o + 2] + 16777216 * s[o + 3]) as u32
}

/// A big endian 16 bit number at offset `o`.
pub open spec fn be16(s: Seq<u8>, o: int) -> u16 {
    (s[o + 1] + 256 * s[o]) as u16
}

/// A big endian 32 bit number at offset `o`.
pub open spec fn be32(s: Seq<u8>, o: int) -> u32 {
    (s[o + 3] + 256 * s[o + 2] + 65536 * s[o + 1] + 16777216 * s[o]) as u32
}

/// The little endian bytes of a 16 bit number.
pub open spec fn le16_bytes(x: u16) -> Seq<u8> {
    seq![(x % 256) as u8, (x / 256) as u8]
}

/// The big endian bytes of a 16 bit number.
pub open spec fn be16_bytes(x: u16) -> Seq<u8> {
    seq![(x / 256) as u8, (x % 256) as u8]
}

/// The little endian bytes of a 32 bit number.
pub open spec fn le32_bytes(x: u32) -> Seq<u8> {
    seq![
        (x % 256) as u8,
        ((x / 256) % 256) as u8,
        ((x / 65536) % 256) as u8,
        (x / 16777216) as u8,
    ]
}

/// The big endian bytes of a 32 bit number.
pub open spec fn be32_bytes(x: u32) -> Seq<u8> {
    seq![
        (x / 16777216) as u8,
        ((x / 65536) % 256) as u8,
        ((x / 256) % 256) as u8,
        (x % 256) as u8,
    ]
}

/// Read a little endian 16 bit number.
pub fn read_le16(s: &[u8], o: usize) -> (r: u16)
    requires
        o + 2 <= s@.len(),
    ensures
        r == le16(s@, o as int),
{
    s[o] as u16 + 256 * (s[o + 1] as u16)
}

/// Read a little endian 32 bit number.
pub fn read_le32(s: &[u8], o: usize) -> (r: u32)
    requires
        o + 4 <= s@.len(),
    ensures
        r == le32(s@, o as int),
{
    s[o] as u32 + 256 * (s[o + 1] as u32) + 65536 * (s[o + 2] as u32) + 16777216 * (s[o
        + 3] as u32)
}

/// Read a big endian 16 bit number.
pub fn read_be16(s: &[u8], o: usize) -> (r: u16)
    requires
        o + 2 <= s@.len(),
    ensures
        r == be16(s@, o as int),
{
    let _n = s.len();
    s[o + 1] as u16 + 256 * (s[o] as u16)
}

/// Read a big endian 32 bit number.
pub fn read_be32(s: &[u8], o: usize) -> (r: u32)
    requires
        o + 4 <= s@.len(),
    ensures
        r == be32(s@, o as int),
{
    let _n = s.len();
    s[o + 3] as u32 + 256 * (s[o + 2] as u32) + 65536 * (s[o + 1] as u32) + 16777216 * (s[o
        + 0] as u32)
}

/// Append the little endian bytes of a 16 bit number.
pub fn push_le16(v: &mut Vec<u8>, x: u16)
    ensures
        final(v)@ == old(v)@ + le16_bytes(x),
{
    v.push((x % 256) as u8);
    v.push((x / 256) as u8);
    assert(final(v)@ =~= old(v)@ + le16_bytes(x));
}

/// Append the big endian bytes of a 16 bit number.
pub fn push_be16(v: &mut Vec<u8>, x: u16)
    ensures
        final(v)@ == old(v)@ + be16_bytes(x),
{
    v.push((x / 256) as u8);
    v.push((x % 256) as u8);
    assert(final(v)@ =~= old(v)@ + be16_bytes(x));
}

/// Append the little endian bytes of a 32 bit number.
pub fn push_le32(v: &mut Vec<u8>, x: u32)
    ensures
        final(v)@ == old(v)@ + le32_bytes(x),
{
    v.push((x % 256) as u8);
    v.push(((x / 256) % 256) as u8);
    v.push(((x / 65536) % 256) as u8);
    v.push((x / 16777216) as u8);
    assert(final(v)@ =~= old(v)@ + le32_bytes(x));
}

/// Append the big endian bytes of a 32 bit number.
pub fn push_be32(v: &mut Vec<u8>, x: u32)
    ensures
        final(v)@ == old(v)@ + be32_bytes(x),
{
    v.push((x / 16777216) as u8);
    v.push(((x / 65536) % 256) as u8);
    v.push(((x / 256) % 256) as u8);
    v.push((x % 256) as u8);
    assert(final(v)@ =~= old(v)@ + be32_bytes(x));
}

/// Reading back the bytes of a number gives the number.
pub proof fn lemma_number_bytes_read_back(x: u32, y: u16)
    ensures
        le32(le32_bytes(x), 0) == x,
        be32(be32_bytes(x), 0) == x,
        le16(le16_bytes(y), 0) == y,
        be16(be16_bytes(y), 0) == y,
{
}

/// Bytes with those at offset `at` replaced by `src`.
pub open spec fn splice(s: Seq<u8>, at: int, src: Seq<u8>) -> Seq<u8> {
    s.take(at) + src + s.skip(at + src.len())
}

/// Copy bytes into a buffer at an offset.
pub fn copy_into(dst: &mut [u8], at: usize, src: &[u8])
    requires
        at + src@.len() <= old(dst)@.len(),
    ensures
        final(dst)@ == splice(old(dst)@, at as int, src@),
{
    let ghost start = dst@;
    let n = dst.len();
    let mut i: usize = 0;
    while i < src.len()
        invariant
            n == start.len(),
            at + src@.len() <= start.len(),
            i <= src@.len(),
            dst@.len() == start.len(),
            dst@ =~= start.take(at as int) + src@.take(i as int) + start.skip(at + i),
        decreases src.len() - i,
    {
        dst[at + i] = src[i];
        i = i + 1;
    }
    assert(src@.take(src@.len() as int) =~= src@);
}

// ------------------------------------------------------------------------------------------
// directory records
// ------------------------------------------------------------------------------------------

/// A directory record: where a file or directory is, how long it is, when it was recorded
/// and what it is named.
pub struct Iso9660DirectoryRecord {
    /// Length of the record in bytes
    pub length: u8,
    /// Length of the extended attribute record
    pub extended_attribute_length: u8,
    /// Where the extent is, as a block number
    pub location_lba: u32,
    /// Length of the extent in bytes
    pub length_bytes: u32,
    /// Years since 1900
    pub date_time_years: u8,
    /// Month of the year
    pub date_time_month: u8,
    /// Day of the month
    pub date_time_day: u8,
    /// Hour of the day
    pub date_time_hour: u8,
    /// Minute of the hour
    pub date_time_minute: u8,
    /// Second of the minute
    pub date_time_second: u8,
    /// Offset from greenwich mean time in 15 minute steps
    pub date_time_gmt_offset: u8,
    /// File flags
    pub flags: u8,
    /// File unit size for interleaved files
    pub file_unit_size: u8,
    /// Interleave gap size for interleaved files
    pub interleave_gap_size: u8,
    /// The volume that the extent is recorded on
    pub volume_sequence_number: u16,
    /// Length of the file name
    pub filename_length: u8,
    /// The file name
    pub name: Iso9660StringD,
}

/// The length of the record of a file name of `n` bytes: 33 bytes and the name, made odd.
pub open spec fn record_len(n: nat) -> nat {
    if (33 + n) % 2 == 0 {
        34 + n
    } else {
        33 + n
    }
}

/// The bytes that the record writes: the header of 33 bytes and the name.
pub open spec fn record_image(r: Iso9660DirectoryRecord) -> Seq<u8> {
    (Seq::<u8>::empty().push((record_len(r.name.0@.len()) % 256) as u8).push(
        r.extended_attribute_length,
    ) + le32_bytes(r.location_lba) + be32_bytes(r.location_lba) + le32_bytes(r.length_bytes)
        + be32_bytes(r.length_bytes)).push(r.date_time_years).push(r.date_time_month).push(
        r.date_time_day,
    ).push(r.date_time_hour).push(r.date_time_minute).push(r.date_time_second).push(
        r.date_time_gmt_offset,
    ).push(r.flags).push(r.file_unit_size).push(r.interleave_gap_size) + le16_bytes(
        r.volume_sequence_number,
    ) + be16_bytes(r.volume_sequence_number).push(r.filename_length) + r.name.0@
}

/// What the name of a record read from bytes is.
pub open spec fn record_name_result(s: Seq<u8>) -> Result<Seq<u8>, IsoError> {
    if s[32] == 0 {
        Ok(Seq::empty())
    } else {
        field_result(s.subrange(33, 33 + s[32]), true, true)
    }
}

/// A record was read from the bytes, with the given name.
pub open spec fn record_parsed(r: Iso9660DirectoryRecord, s: Seq<u8>, name: Seq<u8>) -> bool {
    &&& r.length == s[0]
    &&& r.extended_attribute_length == s[1]
    &&& r.location_lba == le32(s, 2)
    &&& r.length_bytes == le32(s, 10)
    &&& r.date_time_years == s[18]
    &&& r.date_time_month == s[19]
    &&& r.date_time_day == s[20]
    &&& r.date_time_hour == s[21]
    &&& r.date_time_minute == s[22]
    &&& r.date_time_second == s[23]
    &&& r.date_time_gmt_offset == s[24]
    &&& r.flags == s[25]
    &&& r.file_unit_size == s[26]
    &&& r.interleave_gap_size == s[27]
    &&& r.volume_sequence_number == le16(s, 28)
    &&& r.filename_length == s[32]
    &&& r.name.0@ == name
}

/// The bytes can be read as a record without running past their end.
pub open spec fn record_readable(s: Seq<u8>) -> bool {
    s.len() < 34 || s[32] == 0 || 33 + s[32] <= s.len()
}

/// Reading a record from bytes succeeds exactly when there are enough of them and its name
/// can be read.
pub open spec fn record_read_ok(s: Seq<u8>) -> bool {
    s.len() >= 34 && record_name_result(s) is Ok
}

impl Iso9660DirectoryRecord {
    /// A record of zeros with an empty name
    pub fn default() -> (r: Self)
        ensures
            r.length == 0 && r.extended_attribute_length == 0 && r.location_lba == 0
                && r.length_bytes == 0 && r.date_time_years == 0 && r.date_time_month == 0
                && r.date_time_day == 0 && r.date_time_hour == 0 && r.date_time_minute == 0
                && r.date_time_second == 0 && r.date_time_gmt_offset == 0 && r.flags == 0
                && r.file_unit_size == 0 && r.interleave_gap_size == 0
                && r.volume_sequence_number == 0 && r.filename_length == 0,
            r.name.0@.len() == 0,
    {
        Iso9660DirectoryRecord {
            length: 0,
            extended_attribute_length: 0,
            location_lba: 0,
            length_bytes: 0,
            date_time_years: 0,
            date_time_month: 0,
            date_time_day: 0,
            date_time_hour: 0,
            date_time_minute: 0,
            date_time_second: 0,
            date_time_gmt_offset: 0,
            flags: 0,
            file_unit_size: 0,
            interleave_gap_size: 0,
            volume_sequence_number: 0,
            filename_length: 0,
            name: Iso9660StringD::new(),
        }
    }

    /// The bytes of the record: its header and its name
    pub fn image(&self) -> (r: Vec<u8>)
        requires
            33 + self.name.0@.len() <= usize::MAX,
        ensures
            r@ == record_image(*self),
            r@.len() == 33 + self.name.0@.len(),
    {
        let n = self.name.0.len();
        let mut l: usize = 33 + n;
        if l % 2 == 0 {
            l = l + 1;
        }
        let mut v: Vec<u8> = Vec::new();
        v.push((l % 256) as u8);
        v.push(self.extended_attribute_length);
        push_le32(&mut v, self.location_lba);
        push_be32(&mut v, self.location_lba);
        push_le32(&mut v, self.length_bytes);
        push_be32(&mut v, self.length_bytes);
        v.push(self.date_time_years);
        v.push(self.date_time_month);
        v.push(self.date_time_day);
        v.push(self.date_time_hour);
        v.push(self.date_time_minute);
        v.push(self.date_time_second);
        v.push(self.date_time_gmt_offset);
        v.push(self.flags);
        v.push(self.file_unit_size);
        v.push(self.interleave_gap_size);
        push_le16(&mut v, self.volume_sequence_number);
        let ghost before_be = v@;
        push_be16(&mut v, self.volume_sequence_number);
        v.push(self.filename_length);
        assert(v@ =~= before_be + be16_bytes(self.volume_sequence_number).push(
            self.filename_length,
        ));
        let mut i: usize = 0;
        let ghost head = v@;
        while i < n
            invariant
                n == self.name.0@.len(),
                i <= n,
                v@ == head + self.name.0@.take(i as int),
            decreases n - i,
        {
            v.push(self.name.0[i]);
            assert(v@ =~= head + self.name.0@.take(i + 1));
            i = i + 1;
        }
        assert(self.name.0@.take(n as int) =~= self.name.0@);
        assert(v@ =~= record_image(*self));
        v
    }

    /// Write the contents of Self to the given buffer, returning the actual length used
    pub fn get_contents(&self, buffer: &mut [u8]) -> (l: usize)
        requires
            33 + self.name.0@.len() <= old(buffer)@.len(),
        ensures
            l == record_len(self.name.0@.len()),
            final(buffer)@ == record_image(*self) + old(buffer)@.skip(
                33 + self.name.0@.len() as int,
            ),
    {
        let _bl = buffer.len();
        let v = self.image();
        copy_into(buffer, 0, v.as_slice());
        assert(old(buffer)@.take(0) + v@ =~= v@);
        let n = self.name.0.len();
        if (33 + n) % 2 == 0 {
            34 + n
        } else {
            33 + n
        }
    }

    /// Read a record from bytes
    pub fn try_from(value: &[u8]) -> (r: Result<Self, IsoError>)
        requires
            record_readable(value@),
        ensures
            value@.len() < 34 ==> r == Err::<Self, IsoError>(IsoError::InvalidSize),
            value@.len() >= 34 ==> match record_name_result(value@) {
                Ok(name) => r matches Ok(rec) && record_parsed(rec, value@, name),
                Err(e) => r == Err::<Self, IsoError>(e),
            },
    {
        if value.len() < 34 {
            return Err(IsoError::InvalidSize);
        }
        let l = value[32];
        let name = if l == 0 {
            let n = Iso9660StringD::new();
            assert(n.0@ =~= Seq::<u8>::empty());
            n
        } else {
            let raw = slice_subrange(value, 33, 33 + l as usize);
            match read_field_d(raw, true) {
                Ok(n) => n,
                Err(e) => {
                    return Err(e);
                },
            }
        };
        Ok(
            Self {
                length: value[0],
                extended_attribute_length: value[1],
                location_lba: read_le32(value, 2),
                length_bytes: read_le32(value, 10),
                date_time_years: value[18],
                date_time_month: value[19],
                date_time_day: value[20],
                date_time_hour: value[21],
                date_time_minute: value[22],
                date_time_second: value[23],
                date_time_gmt_offset: value[24],
                flags: value[25],
                file_unit_size: value[26],
                interleave_gap_size: value[27],
                volume_sequence_number: read_le16(value, 28),
                filename_length: l,
                name,
            },
        )
    }
}

// ------------------------------------------------------------------------------------------
// dates
// ------------------------------------------------------------------------------------------

/// The ascii byte of a decimal digit.
pub open spec fn digit_byte(d: int) -> u8 {
    (48 + d) as u8
}

/// The ascii decimal digits of a number, without leading zeros.
pub open spec fn dec_bytes(n: nat) -> Seq<u8>
    decreases n,
{
    if n < 10 {
        seq![digit_byte(n as int)]
    } else {
        dec_bytes(n / 10).push(digit_byte((n % 10) as int))
    }
}

/// Text padded with spaces on the right to a width.
pub open spec fn padded(s: Seq<u8>, w: nat) -> Seq<u8> {
    s + Seq::new((w - s.len()) as nat, |i: int| 32u8)
}

/// A byte is an ascii digit.
pub open spec fn is_digit(b: u8) -> bool {
    48 <= b <= 57
}

/// The value of a sequence of ascii digits.
pub open spec fn digits_value(s: Seq<u8>) -> nat
    decreases s.len(),
{
    if s.len() == 0 {
        0
    } else {
        digits_value(s.drop_last()) * 10 + (s.last() - 48) as nat
    }
}

/// The digits of a number's text: the text without a leading `+`.
pub open spec fn sign_stripped(s: Seq<u8>) -> Seq<u8> {
    if s.len() > 0 && s[0] == 43 {
        s.drop_first()
    } else {
        s
    }
}

/// Every byte is an ascii digit.
pub open spec fn all_digits(t: Seq<u8>) -> bool {
    forall|i: int| 0 <= i < t.len() ==> #[trigger] is_digit(t[i])
}

/// What parsing text as an unsigned number gives: an optional `+` and then at least one
/// digit, and nothing else.
pub open spec fn parse_unsigned(s: Seq<u8>) -> Option<nat> {
    let t = sign_stripped(s);
    if t.len() > 0 && all_digits(t) {
        Some(digits_value(t))
    } else {
        None
    }
}

/// What reading a number field of a date gives: the field must be utf-8 and hold a number
/// no greater than `max`.
pub open spec fn num_field(raw: Seq<u8>, max: nat) -> Result<nat, IsoError> {
    if !valid_utf8(raw) {
        Err(IsoError::InvalidUtf8)
    } else {
        match parse_unsigned(raw) {
            Some(v) => if v <= max {
                Ok(v)
            } else {
                Err(IsoError::InvalidNumber)
            },
            None => Err(IsoError::InvalidNumber),
        }
    }
}

proof fn lemma_dec_len(n: nat)
    ensures
        dec_bytes(n).len() >= 1,
        n < 10 ==> dec_bytes(n).len() == 1,
        n < 100 ==> dec_bytes(n).len() <= 2,
        n < 1000 ==> dec_bytes(n).len() <= 3,
        n < 10000 ==> dec_bytes(n).len() <= 4,
    decreases n,
{
    if n >= 10 {
        lemma_dec_len(n / 10);
    }
}

/// Append the ascii decimal digits of a number.
fn push_dec(v: &mut Vec<u8>, n: u64)
    ensures
        final(v)@ == old(v)@ + dec_bytes(n as nat),
    decreases n,
{
    if n >= 10 {
        push_dec(v, n / 10);
    }
    v.push((48 + n % 10) as u8);
    assert(final(v)@ =~= old(v)@ + dec_bytes(n as nat));
}

/// Append a number in decimal, padded with spaces on the right to a width.
fn push_padded(v: &mut Vec<u8>, n: u64, w: usize)
    requires
        dec_bytes(n as nat).len() <= w,
    ensures
        final(v)@ == old(v)@ + padded(dec_bytes(n as nat), w as nat),
{
    let ghost start = old(v)@;
    let before = v.len();
    push_dec(v, n);
    let ghost digits = dec_bytes(n as nat);
    let mut k: usize = v.len() - before;
    while k < w
        invariant
            digits == dec_bytes(n as nat),
            digits.len() <= k <= w,
            v@ == start + digits + Seq::new((k - digits.len()) as nat, |i: int| 32u8),
        decreases w - k,
    {
        v.push(32);
        assert(v@ =~= start + digits + Seq::new((k + 1 - digits.len()) as nat, |i: int| 32u8));
        k = k + 1;
    }
}

/// Read a number field of a date: check that it is utf-8 and parse it as an unsigned number
/// no greater than `max`.
fn read_num(raw: &[u8], max: u64) -> (r: Result<u64, IsoError>)
    requires
        raw@.len() <= 4,
    ensures
        match r {
            Ok(v) => num_field(raw@, max as nat) == Ok::<nat, IsoError>(v as nat),
            Err(e) => num_field(raw@, max as nat) == Err::<nat, IsoError>(e),
        },
{
    if !utf8_valid(raw) {
        return Err(IsoError::InvalidUtf8);
    }
    let n = raw.len();
    let start: usize = if n > 0 && raw[0] == 43 {
        1
    } else {
        0
    };
    let ghost t = sign_stripped(raw@);
    assert(t =~= raw@.skip(start as int));
    if start == n {
        return Err(IsoError::InvalidNumber);
    }
    let mut v: u64 = 0;
    let mut i: usize = start;
    let ghost mut lim: int = 1;
    while i < n
        invariant
            n == raw@.len() <= 4,
            start <= i <= n,
            t == sign_stripped(raw@),
            valid_utf8(raw@),
            t =~= raw@.skip(start as int),
            forall|j: int| 0 <= j < i - start ==> #[trigger] is_digit(t[j]),
            v == digits_value(t.take(i - start)),
            v < lim,
            lim <= 10000,
            (i - start) <= 4,
            lim == (if i - start == 0 {
                1int
            } else if i - start == 1 {
                10int
            } else if i - start == 2 {
                100int
            } else if i - start == 3 {
                1000int
            } else {
                10000int
            }),
        decreases n - i,
    {
        let b = raw[i];
        assert(t[i - start] == raw@[i as int]);
        if b < 48 || b > 57 {
            assert(!is_digit(t[i - start]));
            assert(parse_unsigned(raw@) is None);
            return Err(IsoError::InvalidNumber);
        }
        assert(t.take(i + 1 - start).drop_last() =~= t.take(i - start));
        v = v * 10 + (b - 48) as u64;
        proof {
            lim = lim * 10;
        }
        i = i + 1;
    }
    assert(t.take(n - start) =~= t);
    if v > max {
        return Err(IsoError::InvalidNumber);
    }
    Ok(v)
}

/// A date and time as a volume descriptor records it: in text.
#[derive(Clone, Copy)]
pub struct Iso9660Datetime {
    /// The year
    pub year: u16,
    /// The month of the year
    pub month: u8,
    /// The day of the month
    pub day: u8,
    /// The hour of the day
    pub hour: u8,
    /// The minute of the hour
    pub minute: u8,
    /// The second of the minute
    pub second: u8,
    /// Hundredths of a second
    pub fractions_second: u8,
    /// Offset from greenwich mean time in 15 minute steps
    pub gmt_offset: u8,
}

/// The fields of a date fit their widths: four digits for the year and two for the others.
pub open spec fn datetime_fits(d: Iso9660Datetime) -> bool {
    &&& d.year < 10000
    &&& d.month < 100
    &&& d.day < 100
    &&& d.hour < 100
    &&& d.minute < 100
    &&& d.second < 100
    &&& d.fractions_second < 100
}

/// The 17 bytes of a date: each number left aligned in its width and padded with spaces, then
/// the offset from greenwich mean time.
pub open spec fn datetime_image(d: Iso9660Datetime) -> Seq<u8> {
    (Seq::<u8>::empty() + padded(dec_bytes(d.year as nat), 4) + padded(dec_bytes(d.month as nat), 2)
        + padded(dec_bytes(d.day as nat), 2) + padded(dec_bytes(d.hour as nat), 2) + padded(
        dec_bytes(d.minute as nat),
        2,
    ) + padded(dec_bytes(d.second as nat), 2) + padded(dec_bytes(d.fractions_second as nat), 2)).push(
        d.gmt_offset,
    )
}

/// What reading a date from bytes gives.
pub open spec fn datetime_from(s: Seq<u8>) -> Result<Iso9660Datetime, IsoError> {
    if s.len() != 17 {
        Err(IsoError::InvalidSize)
    } else {
        match num_field(s.subrange(0, 4), 65535) {
            Err(e) => Err(e),
            Ok(year) => match num_field(s.subrange(4, 6), 255) {
                Err(e) => Err(e),
                Ok(month) => match num_field(s.subrange(6, 8), 255) {
                    Err(e) => Err(e),
                    Ok(day) => match num_field(s.subrange(8, 10), 255) {
                        Err(e) => Err(e),
                        Ok(hour) => match num_field(s.subrange(10, 12), 255) {
                            Err(e) => Err(e),
                            Ok(minute) => match num_field(s.subrange(12, 14), 255) {
                                Err(e) => Err(e),
                                Ok(second) => match num_field(s.subrange(14, 16), 255) {
                                    Err(e) => Err(e),
                                    Ok(fractions) => Ok(
                                        Iso9660Datetime {
                                            year: year as u16,
                                            month: month as u8,
                                            day: day as u8,
                                            hour: hour as u8,
                                            minute: minute as u8,
                                            second: second as u8,
                                            fractions_second: fractions as u8,
                                            gmt_offset: s[16],
                                        },
                                    ),
                                },
                            },
                        },
                    },
                },
            },
        }
    }
}

/// The bytes of a date that fits are 17.
pub proof fn lemma_datetime_image_len(d: Iso9660Datetime)
    ensures
        datetime_fits(d) ==> datetime_image(d).len() == 17,
{
    lemma_dec_len(d.year as nat);
    lemma_dec_len(d.month as nat);
    lemma_dec_len(d.day as nat);
    lemma_dec_len(d.hour as nat);
    lemma_dec_len(d.minute as nat);
    lemma_dec_len(d.second as nat);
    lemma_dec_len(d.fractions_second as nat);
}

impl Iso9660Datetime {
    /// A date of zeros.
    pub open spec fn default_spec() -> Self {
        Iso9660Datetime {
            year: 0,
            month: 0,
            day: 0,
            hour: 0,
            minute: 0,
            second: 0,
            fractions_second: 0,
            gmt_offset: 0,
        }
    }

    /// A date of zeros
    pub fn default() -> (r: Self)
        ensures
            r == Self::default_spec(),
    {
        Iso9660Datetime {
            year: 0,
            month: 0,
            day: 0,
            hour: 0,
            minute: 0,
            second: 0,
            fractions_second: 0,
            gmt_offset: 0,
        }
    }

    /// The 17 bytes of the date
    pub fn image(&self) -> (r: Vec<u8>)
        requires
            datetime_fits(*self),
        ensures
            r@ == datetime_image(*self),
    {
        proof {
            lemma_dec_len(self.year as nat);
            lemma_dec_len(self.month as nat);
            lemma_dec_len(self.day as nat);
            lemma_dec_len(self.hour as nat);
            lemma_dec_len(self.minute as nat);
            lemma_dec_len(self.second as nat);
            lemma_dec_len(self.fractions_second as nat);
        }
        let mut v: Vec<u8> = Vec::new();
        push_padded(&mut v, self.year as u64, 4);
        push_padded(&mut v, self.month as u64, 2);
        push_padded(&mut v, self.day as u64, 2);
        push_padded(&mut v, self.hour as u64, 2);
        push_padded(&mut v, self.minute as u64, 2);
        push_padded(&mut v, self.second as u64, 2);
        push_padded(&mut v, self.fractions_second as u64, 2);
        v.push(self.gmt_offset);
        v
    }

    /// Write the contents of Self to the given buffer
    pub fn get_contents(&self, buffer: &mut [u8])
        requires
            datetime_fits(*self),
            17 <= old(buffer)@.len(),
        ensures
            final(buffer)@ == datetime_image(*self) + old(buffer)@.skip(17),
    {
        let _bl = buffer.len();
        let v = self.image();
        proof {
            lemma_dec_len(self.year as nat);
            lemma_dec_len(self.month as nat);
            lemma_dec_len(self.day as nat);
            lemma_dec_len(self.hour as nat);
            lemma_dec_len(self.minute as nat);
            lemma_dec_len(self.second as nat);
            lemma_dec_len(self.fractions_second as nat);
        }
        assert(v@.len() == 17);
        copy_into(buffer, 0, v.as_slice());
        assert(old(buffer)@.take(0) + v@ =~= v@);
    }

    /// Read a date from its 17 bytes
    pub fn try_from(value: &[u8]) -> (r: Result<Self, IsoError>)
        ensures
            r == datetime_from(value@),
    {
        if value.len() != 17 {
            return Err(IsoError::InvalidSize);
        }
        let year = match read_num(slice_subrange(value, 0, 4), 65535) {
            Ok(v) => v,
            Err(e) => {
                return Err(e);
            },
        };
        let month = match read_num(slice_subrange(value, 4, 6), 255) {
            Ok(v) => v,
            Err(e) => {
                return Err(e);
            },
        };
        let day = match read_num(slice_subrange(value, 6, 8), 255) {
            Ok(v) => v,
            Err(e) => {
                return Err(e);
            },
        };
        let hour = match read_num(slice_subrange(value, 8, 10), 255) {
            Ok(v) => v,
            Err(e) => {
                return Err(e);
            },
        };
        let minute = match read_num(slice_subrange(value, 10, 12), 255) {
            Ok(v) => v,
            Err(e) => {
                return Err(e);
            },
        };
        let second = match read_num(slice_subrange(value, 12, 14), 255) {
            Ok(v) => v,
            Err(e) => {
                return Err(e);
            },
        };
        let fractions = match read_num(slice_subrange(value, 14, 16), 255) {
            Ok(v) => v,
            Err(e) => {
                return Err(e);
            },
        };
        Ok(
            Iso9660Datetime {
                year: year as u16,
                month: month as u8,
                day: day as u8,
                hour: hour as u8,
                minute: minute as u8,
                second: second as u8,
                fractions_second: fractions as u8,
                gmt_offset: value[16],
            },
        )
    }
}

// ------------------------------------------------------------------------------------------
// path table entries
// ------------------------------------------------------------------------------------------

/// An entry in the path table
pub struct PathTableEntry {
    /// Length of the directory name
    pub name_length: u8,
    /// Length of the extended attribute record
    pub extended_attribute_length: u8,
    /// Where the directory is, as a block number
    pub location_lba: u32,
    /// The number of the parent directory in the path table
    pub parent_dir: u16,
    /// The directory name
    pub name: Iso9660StringD,
}

/// The length in bytes of a path table entry whose name is `n` bytes: 8 bytes and the name,
/// made even.
pub open spec fn entry_len(n: nat) -> nat {
    if (8 + n) % 2 == 1 {
        9 + n
    } else {
        8 + n
    }
}

/// The 8 bytes of the header of an entry, in little or big endian.
pub open spec fn entry_header(e: PathTableEntry, be: bool) -> Seq<u8> {
    if be {
        seq![e.name_length, e.extended_attribute_length] + be32_bytes(e.location_lba) + be16_bytes(
            e.parent_dir,
        )
    } else {
        seq![e.name_length, e.extended_attribute_length] + le32_bytes(e.location_lba) + le16_bytes(
            e.parent_dir,
        )
    }
}

/// The bytes can be read as an entry without running past their end.
pub open spec fn entry_readable(s: Seq<u8>) -> bool {
    s.len() >= 8 && (s[0] == 0 || 8 + s[0] <= s.len())
}

/// What the name of an entry read from bytes is.
pub open spec fn entry_name_result(s: Seq<u8>) -> Result<Seq<u8>, IsoError> {
    if s[0] == 0 {
        Ok(Seq::empty())
    } else {
        field_result(s.subrange(8, 8 + s[0]), true, true)
    }
}

/// An entry was read from the bytes, in little or big endian, with the given name.
pub open spec fn entry_parsed(e: PathTableEntry, s: Seq<u8>, be: bool, name: Seq<u8>) -> bool {
    &&& e.name_length == s[0]
    &&& e.extended_attribute_length == s[1]
    &&& e.location_lba == if be {
        be32(s, 2)
    } else {
        le32(s, 2)
    }
    &&& e.parent_dir == if be {
        be16(s, 6)
    } else {
        le16(s, 6)
    }
    &&& e.name.0@ == name
}

impl PathTableEntry {
    /// Calculate the length in bytes
    pub fn length(&self) -> (r: usize)
        ensures
            r == entry_len(self.name_length as nat),
    {
        let mut len: usize = 8;
        len = len + self.name_length as usize;
        if len % 2 == 1 {
            len = len + 1;
        }
        len
    }

    /// The byte offset of the directory in the image
    pub fn directory_entry_location(&self) -> (r: usize)
        requires
            self.location_lba * 2048 <= usize::MAX,
        ensures
            r == self.location_lba * 2048,
    {
        self.location_lba as usize * 2048
    }

    /// Write the header of the entry, in little or big endian
    pub fn write_data(&self, buf: &mut [u8], be: bool)
        requires
            8 <= old(buf)@.len(),
        ensures
            final(buf)@ == entry_header(*self, be) + old(buf)@.skip(8),
    {
        let _bl = buf.len();
        let mut v: Vec<u8> = Vec::new();
        v.push(self.name_length);
        v.push(self.extended_attribute_length);
        if be {
            push_be32(&mut v, self.location_lba);
            push_be16(&mut v, self.parent_dir);
        } else {
            push_le32(&mut v, self.location_lba);
            push_le16(&mut v, self.parent_dir);
        }
        assert(v@ =~= entry_header(*self, be));
        copy_into(buf, 0, v.as_slice());
        assert(old(buf)@.take(0) + v@ =~= v@);
    }

    /// Build an entry from bytes holding little or big endian values
    pub fn from_data(buf: &[u8], be: bool) -> (r: Result<Self, IsoError>)
        requires
            entry_readable(buf@),
        ensures
            match entry_name_result(buf@) {
                Ok(name) => r matches Ok(e) && entry_parsed(e, buf@, be, name),
                Err(e) => r == Err::<Self, IsoError>(e),
            },
    {
        let name_length = buf[0];
        let name = if name_length == 0 {
            let n = Iso9660StringD::new();
            assert(n.0@ =~= Seq::<u8>::empty());
            n
        } else {
            let raw = slice_subrange(buf, 8, 8 + name_length as usize);
            match read_field_d(raw, true) {
                Ok(n) => n,
                Err(e) => {
                    return Err(e);
                },
            }
        };
        let (location_lba, parent_dir) = if be {
            (read_be32(buf, 2), read_be16(buf, 6))
        } else {
            (read_le32(buf, 2), read_le16(buf, 6))
        };
        Ok(
            Self {
                name_length,
                extended_attribute_length: buf[1],
                location_lba,
                parent_dir,
                name,
            },
        )
    }

    /// Build an entry from bytes holding little endian values
    pub fn from_le_data(buf: &[u8]) -> (r: Result<Self, IsoError>)
        requires
            entry_readable(buf@),
        ensures
            match entry_name_result(buf@) {
                Ok(name) => r matches Ok(e) && entry_parsed(e, buf@, false, name),
                Err(e) => r == Err::<Self, IsoError>(e),
            },
    {
        Self::from_data(buf, false)
    }

    /// Build an entry from bytes holding big endian values
    pub fn from_be_data(buf: &[u8]) -> (r: Result<Self, IsoError>)
        requires
            entry_readable(buf@),
        ensures
            match entry_name_result(buf@) {
                Ok(name) => r matches Ok(e) && entry_parsed(e, buf@, true, name),
                Err(e) => r == Err::<Self, IsoError>(e),
            },
    {
        Self::from_data(buf, true)
    }
}

// ------------------------------------------------------------------------------------------
// reading back what was written
// ------------------------------------------------------------------------------------------

/// Every byte is ascii.
pub open spec fn all_ascii(s: Seq<u8>) -> bool {
    forall|i: int| 0 <= i < s.len() ==> #[trigger] s[i] < 128
}

/// Ascii bytes are valid utf-8.
pub proof fn lemma_ascii_valid_utf8(s: Seq<u8>)
    requires
        all_ascii(s),
    ensures
        valid_utf8(s),
    decreases s.len(),
{
    if s.len() > 0 {
        let b = s[0];
        assert(b < 128);
        assert(b & 0x7f == b) by (bit_vector)
            requires
                b < 128,
        ;
        let rest = s.subrange(1, s.len() as int);
        assert(all_ascii(rest)) by {
            assert forall|i: int| 0 <= i < rest.len() implies #[trigger] rest[i] < 128 by {
                assert(rest[i] == s[i + 1]);
            }
        }
        lemma_ascii_valid_utf8(rest);
        assert(vstd::utf8::pop_first_scalar(s) =~= rest);
    }
}

/// A name that a record can hold and read back: "d" characters with no space at the end.
pub open spec fn d_name(n: Seq<u8>) -> bool {
    &&& forall|i: int| 0 <= i < n.len() ==> #[trigger] is_d_char(n[i])
    &&& n.len() > 0 ==> n.last() != 32
}

proof fn lemma_d_name_reads_back(n: Seq<u8>)
    requires
        d_name(n),
    ensures
        trim_ws(n) == n,
        trim_nul(n) == n,
        valid_utf8(n),
        all_class(n, true),
        upper_seq(n) == n,
{
    if n.len() > 0 {
        assert(is_d_char(n[n.len() - 1]));
    }
    assert forall|i: int| 0 <= i < n.len() implies #[trigger] n[i] < 128 by {
        assert(is_d_char(n[i]));
    }
    lemma_ascii_valid_utf8(n);
    assert forall|i: int| 0 <= i < n.len() implies #[trigger] upper_seq(n)[i] == n[i] by {
        assert(is_d_char(n[i]));
    }
    assert(upper_seq(n) =~= n);
    assert forall|i: int| 0 <= i < n.len() implies #[trigger] class_char(n[i], true) by {
        assert(is_d_char(n[i]));
    }
}

/// A record whose file name length is that of its name, and whose name is made of "d"
/// characters without a space at the end, reads back from the bytes it writes: every field
/// but the length, which reads back as the length it was written with.
pub proof fn lemma_record_reads_back(r: Iso9660DirectoryRecord, rest: Seq<u8>)
    requires
        r.filename_length == r.name.0@.len(),
        d_name(r.name.0@),
        33 + r.name.0@.len() + rest.len() >= 34,
    ensures
        ({
            let s = record_image(r) + rest;
            &&& record_readable(s)
            &&& record_read_ok(s)
            &&& record_name_result(s) == Ok::<Seq<u8>, IsoError>(r.name.0@)
            &&& record_parsed(
                Iso9660DirectoryRecord { length: (record_len(r.name.0@.len()) % 256) as u8, ..r },
                s,
                r.name.0@,
            )
        }),
{
    let s = record_image(r) + rest;
    let n = r.name.0@;
    assert(record_image(r).len() == 33 + n.len());
    assert(s[32] == r.filename_length);
    lemma_number_bytes_read_back(r.location_lba, r.volume_sequence_number);
    lemma_number_bytes_read_back(r.length_bytes, r.volume_sequence_number);
    assert(le32(s, 2) == le32(le32_bytes(r.location_lba), 0));
    assert(le32(s, 10) == le32(le32_bytes(r.length_bytes), 0));
    assert(le16(s, 28) == le16(le16_bytes(r.volume_sequence_number), 0));
    if n.len() > 0 {
        assert(s.subrange(33, 33 + s[32]) =~= n);
        lemma_d_name_reads_back(n);
    } else {
        assert(record_name_result(s) == Ok::<Seq<u8>, IsoError>(Seq::empty()));
        assert(n =~= Seq::<u8>::empty());
    }
}

proof fn lemma_digits_read_back(s: Seq<u8>, n: nat, max: nat)
    requires
        all_digits(s),
        s.len() > 0,
        digits_value(s) == n,
        n <= max,
    ensures
        num_field(s, max) == Ok::<nat, IsoError>(n),
{
    assert forall|i: int| 0 <= i < s.len() implies #[trigger] s[i] < 128 by {
        assert(is_digit(s[i]));
    }
    lemma_ascii_valid_utf8(s);
    assert(is_digit(s[0]));
    assert(sign_stripped(s) == s);
}

proof fn lemma_two_digits(n: nat)
    requires
        10 <= n <= 99,
    ensures
        dec_bytes(n).len() == 2,
        padded(dec_bytes(n), 2) == dec_bytes(n),
        num_field(dec_bytes(n), 255) == Ok::<nat, IsoError>(n),
{
    let s = dec_bytes(n);
    assert(dec_bytes(n / 10) == seq![digit_byte((n / 10) as int)]);
    assert(s =~= seq![digit_byte((n / 10) as int), digit_byte((n % 10) as int)]);
    assert(padded(s, 2) =~= s);
    assert(s.drop_last() =~= seq![digit_byte((n / 10) as int)]);
    assert(seq![digit_byte((n / 10) as int)].drop_last() =~= Seq::<u8>::empty());
    assert(digit_byte((n / 10) as int) - 48 == n / 10);
    assert(digit_byte((n % 10) as int) - 48 == n % 10);
    assert(digits_value(Seq::<u8>::empty()) == 0);
    assert(seq![digit_byte((n / 10) as int)].last() == digit_byte((n / 10) as int));
    assert(digits_value(seq![digit_byte((n / 10) as int)]) == n / 10);
    assert(digits_value(s) == n);
    assert(all_digits(s));
    lemma_digits_read_back(s, n, 255);
}

proof fn lemma_four_digits(n: nat)
    requires
        1000 <= n <= 9999,
    ensures
        dec_bytes(n).len() == 4,
        padded(dec_bytes(n), 4) == dec_bytes(n),
        num_field(dec_bytes(n), 65535) == Ok::<nat, IsoError>(n),
{
    let a = digit_byte((n / 1000) as int);
    let b = digit_byte(((n / 100) % 10) as int);
    let c = digit_byte(((n / 10) % 10) as int);
    let d = digit_byte((n % 10) as int);
    assert(n / 10 / 10 == n / 100);
    assert(n / 100 / 10 == n / 1000);
    assert(dec_bytes(n / 1000) == seq![a]);
    assert(dec_bytes(n / 100) =~= seq![a, b]);
    assert(dec_bytes(n / 10) =~= seq![a, b, c]);
    let s = dec_bytes(n);
    assert(s =~= seq![a, b, c, d]);
    assert(padded(s, 4) =~= s);
    assert(s.drop_last() =~= seq![a, b, c]);
    assert(seq![a, b, c].drop_last() =~= seq![a, b]);
    assert(seq![a, b].drop_last() =~= seq![a]);
    assert(seq![a].drop_last() =~= Seq::<u8>::empty());
    assert(a - 48 == n / 1000);
    assert(b - 48 == (n / 100) % 10);
    assert(c - 48 == (n / 10) % 10);
    assert(d - 48 == n % 10);
    assert(digits_value(Seq::<u8>::empty()) == 0);
    assert(digits_value(seq![a]) == n / 1000);
    assert(digits_value(seq![a, b]) == n / 100);
    assert(digits_value(seq![a, b, c]) == n / 10);
    assert(digits_value(s) == n);
    assert(all_digits(s));
    lemma_digits_read_back(s, n, 65535);
}

/// A date whose year has four digits and whose other numbers have two reads back from the
/// bytes it writes.
pub proof fn lemma_datetime_reads_back(d: Iso9660Datetime)
    requires
        1000 <= d.year <= 9999,
        10 <= d.month <= 99,
        10 <= d.day <= 99,
        10 <= d.hour <= 99,
        10 <= d.minute <= 99,
        10 <= d.second <= 99,
        10 <= d.fractions_second <= 99,
    ensures
        datetime_from(datetime_image(d)) == Ok::<Iso9660Datetime, IsoError>(d),
{
    lemma_four_digits(d.year as nat);
    lemma_two_digits(d.month as nat);
    lemma_two_digits(d.day as nat);
    lemma_two_digits(d.hour as nat);
    lemma_two_digits(d.minute as nat);
    lemma_two_digits(d.second as nat);
    lemma_two_digits(d.fractions_second as nat);
    let s = datetime_image(d);
    assert(s.len() == 17);
    assert(s.subrange(0, 4) =~= dec_bytes(d.year as nat));
    assert(s.subrange(4, 6) =~= dec_bytes(d.month as nat));
    assert(s.subrange(6, 8) =~= dec_bytes(d.day as nat));
    assert(s.subrange(8, 10) =~= dec_bytes(d.hour as nat));
    assert(s.subrange(10, 12) =~= dec_bytes(d.minute as nat));
    assert(s.subrange(12, 14) =~= dec_bytes(d.second as nat));
    assert(s.subrange(14, 16) =~= dec_bytes(d.fractions_second as nat));
    assert(s[16] == d.gmt_offset);
}

/// An entry whose name length is that of its name, and whose name is made of "d" characters
/// without a space at the end, reads back, in either byte order, from the header it writes
/// followed by its name.
pub proof fn lemma_entry_reads_back(e: PathTableEntry, be: bool, rest: Seq<u8>)
    requires
        e.name_length == e.name.0@.len(),
        d_name(e.name.0@),
    ensures
        ({
            let s = entry_header(e, be) + e.name.0@ + rest;
            &&& entry_readable(s)
            &&& entry_name_result(s) == Ok::<Seq<u8>, IsoError>(e.name.0@)
            &&& entry_parsed(e, s, be, e.name.0@)
        }),
{
    let n = e.name.0@;
    let s = entry_header(e, be) + n + rest;
    assert(entry_header(e, be).len() == 8);
    assert(s[0] == e.name_length);
    assert(s[1] == e.extended_attribute_length);
    lemma_number_bytes_read_back(e.location_lba, e.parent_dir);
    if be {
        assert(be32(s, 2) == be32(be32_bytes(e.location_lba), 0));
        assert(be16(s, 6) == be16(be16_bytes(e.parent_dir), 0));
    } else {
        assert(le32(s, 2) == le32(le32_bytes(e.location_lba), 0));
        assert(le16(s, 6) == le16(le16_bytes(e.parent_dir), 0));
    }
    if n.len() > 0 {
        assert(s.subrange(8, 8 + s[0]) =~= n);
        lemma_d_name_reads_back(n);
    } else {
        assert(n =~= Seq::<u8>::empty());
    }
}

} // verus!
