//! The volume descriptors of an iso9660 image, and the image as a whole: reading them from
//! bytes and writing them back.

use vstd::prelude::*;
use vstd::slice::slice_subrange;
use vstd::utf8::valid_utf8;
use crate::iso9660::{be16, be32,
    entry_len, entry_name_result, entry_parsed, entry_readable, record_read_ok, record_readable,
    IsoError, Iso9660StringA, Iso9660StringD, Iso9660DirectoryRecord, Iso9660Datetime,
    PathTableEntry, all_class, be16_bytes, be32_bytes, copy_into, datetime_fits, datetime_from,
    datetime_image, field_result, field_text, le16, le16_bytes, le32, le32_bytes, padded,
    push_be16, push_be32, push_le16, push_le32, read_field_checked, read_le16, read_le32,
    read_text, record_image, record_name_result, record_parsed, splice, trim_ws, upper_seq,
    utf8_valid,
};

verus! {

/// The standard identifier of iso9660 volume descriptors: "CD001".
pub open spec fn cd001() -> Seq<u8> {
    seq![67u8, 68u8, 48u8, 48u8, 49u8]
}

/// The standard identifier of a descriptor, at bytes 1 to 5.
pub open spec fn standard_of(d: Seq<u8>) -> Seq<u8> {
    d.subrange(1, 6)
}

/// A descriptor whose standard identifier is utf-8 names the standard and version 1; reading
/// one that does not stops the program.
pub open spec fn standard_ok(d: Seq<u8>) -> bool {
    valid_utf8(standard_of(d)) ==> standard_of(d) == cd001() && d[6] == 1
}

/// The error of a result, if any.
pub open spec fn error_of<T>(r: Result<T, IsoError>) -> Option<IsoError> {
    match r {
        Ok(_) => None,
        Err(e) => Some(e),
    }
}

/// The bytes of the standard identifier.
fn cd001_bytes() -> (r: Vec<u8>)
    ensures
        r@ == cd001(),
{
    let r = vec![67u8, 68u8, 48u8, 48u8, 49u8];
    assert(r@ =~= cd001());
    r
}

/// Check the standard identifier of a descriptor.
fn check_standard(value: &[u8; 2048]) -> (r: Result<(), IsoError>)
    requires
        standard_ok(value@),
    ensures
        match r {
            Ok(_) => valid_utf8(standard_of(value@)) && standard_of(value@) == cd001() && value@[6] == 1,
            Err(e) => !valid_utf8(standard_of(value@)) && e == IsoError::InvalidUtf8,
        },
{
    let std = slice_subrange(value.as_slice(), 1, 6);
    if !utf8_valid(std) {
        return Err(IsoError::InvalidUtf8);
    }
    Ok(())
}

// ------------------------------------------------------------------------------------------
// boot volumes
// ------------------------------------------------------------------------------------------

/// A boot record volume descriptor
pub struct BootVolume {
    /// Identifies the system that can boot from the record
    pub boot_system_id: Iso9660StringA,
    /// Identifies the boot system
    pub boot_id: Iso9660StringA,
    /// The rest of the descriptor, for the boot system
    pub custom: Vec<u8>,
}

/// Why a boot descriptor cannot be read, if it cannot: first the utf-8 of the standard and of
/// both identifiers, then their characters.
#[verifier::opaque]
pub open spec fn boot_error(d: Seq<u8>) -> Option<IsoError> {
    let bsi = d.subrange(7, 39);
    let bi = d.subrange(39, 71);
    if !valid_utf8(standard_of(d)) {
        Some(IsoError::InvalidUtf8)
    } else if !valid_utf8(trim_ws(bsi)) {
        Some(IsoError::InvalidUtf8)
    } else if !valid_utf8(trim_ws(bi)) {
        Some(IsoError::InvalidUtf8)
    } else if !all_class(field_text(bsi, true), false) {
        Some(IsoError::InvalidCharacter)
    } else if !all_class(field_text(bi, true), false) {
        Some(IsoError::InvalidCharacter)
    } else {
        None
    }
}

/// A boot volume was read from a descriptor.
#[verifier::opaque]
pub open spec fn boot_parsed(b: BootVolume, d: Seq<u8>) -> bool {
    &&& b.boot_system_id.0@ == upper_seq(field_text(d.subrange(7, 39), true))
    &&& b.boot_id.0@ == upper_seq(field_text(d.subrange(39, 71), true))
    &&& b.custom@ == d.subrange(71, 2048)
}

/// What writing a boot descriptor does to the bytes.
pub open spec fn boot_written(d: Seq<u8>) -> Seq<u8> {
    splice(d.update(0, 0u8), 2, cd001()).update(7, 1u8)
}

impl BootVolume {
    /// Read a boot volume from its descriptor
    pub fn try_from(value: &[u8; 2048]) -> (r: Result<Self, IsoError>)
        requires
            standard_ok(value@),
        ensures
            match boot_error(value@) {
                Some(e) => r == Err::<Self, IsoError>(e),
                None => r matches Ok(b) && boot_parsed(b, value@),
            },
    {
        proof {
            reveal(boot_error);
            reveal(boot_parsed);
        }
        let v = value.as_slice();
        match check_standard(value) {
            Ok(_) => {},
            Err(e) => {
                return Err(e);
            },
        }
        let bsi = match read_text(slice_subrange(v, 7, 39), true) {
            Ok(t) => t,
            Err(e) => {
                return Err(e);
            },
        };
        let bi = match read_text(slice_subrange(v, 39, 71), true) {
            Ok(t) => t,
            Err(e) => {
                return Err(e);
            },
        };
        let boot_system_id = match Iso9660StringA::try_from(bsi) {
            Ok(s) => s,
            Err(e) => {
                return Err(e);
            },
        };
        let boot_id = match Iso9660StringA::try_from(bi) {
            Ok(s) => s,
            Err(e) => {
                return Err(e);
            },
        };
        let custom = vstd::slice::slice_to_vec(slice_subrange(v, 71, 2048));
        Ok(Self { boot_system_id, boot_id, custom })
    }

    /// Write the contents of the volume descriptor to the specified buffer
    pub fn write_descriptor(&self, descriptor: &mut [u8; 2048])
        ensures
            final(descriptor)@ == boot_written(old(descriptor)@),
    {
        descriptor[0] = 0;
        let std = cd001_bytes();
        copy_into(descriptor, 2, std.as_slice());
        descriptor[7] = 1;
    }
}

// ------------------------------------------------------------------------------------------
// volume descriptor set terminators
// ------------------------------------------------------------------------------------------

/// The descriptor that ends the set of volume descriptors
pub struct VolumeTerminator {}

/// What writing a terminator does to the bytes.
pub open spec fn terminator_written(d: Seq<u8>) -> Seq<u8> {
    splice(d.update(0, 255u8), 1, cd001()).update(6, 1u8)
}

impl VolumeTerminator {
    /// Read a terminator from its descriptor
    pub fn try_from(value: &[u8; 2048]) -> (r: Result<Self, IsoError>)
        requires
            standard_ok(value@),
        ensures
            r is Ok <==> valid_utf8(standard_of(value@)),
            r is Err ==> r == Err::<Self, IsoError>(IsoError::InvalidUtf8),
    {
        match check_standard(value) {
            Ok(_) => Ok(Self {  }),
            Err(e) => Err(e),
        }
    }

    /// Write the contents of the volume descriptor to the specified buffer
    pub fn write_descriptor(&self, descriptor: &mut [u8; 2048])
        ensures
            final(descriptor)@ == terminator_written(old(descriptor)@),
    {
        descriptor[0] = 255;
        let std = cd001_bytes();
        copy_into(descriptor, 1, std.as_slice());
        descriptor[6] = 1;
    }
}

/// A supplementary volume descriptor; reading one is not supported
pub struct SupplementaryVolume {}

/// A volume partition descriptor; reading one is not supported
pub struct VolumePartition {}

// ------------------------------------------------------------------------------------------
// primary volumes
// ------------------------------------------------------------------------------------------

/// The primary volume descriptor: what the volume is, how large, where its path table and
/// root directory are, who made it and when
pub struct PrimaryVolume {
    /// The system identifier
    pub system: Iso9660StringA,
    /// Volume id
    pub volume_id: Iso9660StringD,
    /// Volume size in blocks
    pub size: u32,
    /// total number of volumes
    pub total_volumes: u16,
    /// number for this volume
    pub this_volume: u16,
    /// block size in bytes
    pub block_size: u16,
    /// path table size in bytes
    pub path_table_size: u32,
    /// Path table location in lba form
    pub path_table_location: u32,
    /// optional path table location in lba form
    pub optional_path_table_location: u32,
    /// The root directory
    pub root: Iso9660DirectoryRecord,
    /// volume set id
    pub volume_set_id: Iso9660StringD,
    /// publisher id
    pub publisher: Iso9660StringA,
    /// The id of the person that prepared the data
    pub data_preparer: Iso9660StringA,
    /// application id
    pub application: Iso9660StringA,
    /// copyright filename, the file that contains the copyright information
    pub copyright_file: Iso9660StringD,
    /// abstract filename, the file that contains abstract information for the volume
    pub abstract_file: Iso9660StringD,
    /// bibliographic filename, the file containint bibliographic information
    pub bibliographic_file: Iso9660StringD,
    /// creation date and time
    pub creation: Iso9660Datetime,
    /// modification date and time
    pub modification: Iso9660Datetime,
    /// when the volume data is considered to be obsolete
    pub expiration: Iso9660Datetime,
    /// When the volume data starts being useful.
    pub beginning: Iso9660Datetime,
    /// application specific data
    pub application_specific: [u8; 512],
    /// Path table
    pub path_table: Vec<PathTableEntry>,
    /// The volume data
    pub volume_data: Vec<u8>,
}

/// The part of a descriptor from `a` to `b`.
pub open spec fn part(d: Seq<u8>, a: int, b: int) -> Seq<u8> {
    d.subrange(a, b)
}

/// The checks of a primary descriptor before its root record pass: its standard, and the
/// utf-8 and characters of the system and volume identifiers.
pub open spec fn primary_head_ok(d: Seq<u8>) -> bool {
    &&& valid_utf8(standard_of(d))
    &&& valid_utf8(trim_ws(part(d, 8, 40)))
    &&& valid_utf8(trim_ws(part(d, 40, 72)))
    &&& all_class(trim_ws(part(d, 8, 40)), false)
    &&& all_class(trim_ws(part(d, 40, 72)), true)
}

/// Reading a primary descriptor does not stop the program: its standard identifier is right
/// when it is utf-8, byte 7 is zero, and the root record's name fits in the record.
#[verifier::opaque]
pub open spec fn primary_readable(d: Seq<u8>) -> bool {
    &&& valid_utf8(standard_of(d)) ==> standard_of(d) == cd001() && d[6] == 1 && d[7] == 0
    &&& primary_head_ok(d) ==> d[188] <= 1
}

/// Why a primary descriptor cannot be read, if it cannot, in the order of its fields.
#[verifier::opaque]
pub open spec fn primary_error(d: Seq<u8>) -> Option<IsoError> {
    if !valid_utf8(standard_of(d)) {
        Some(IsoError::InvalidUtf8)
    } else if !valid_utf8(trim_ws(part(d, 8, 40))) {
        Some(IsoError::InvalidUtf8)
    } else if !valid_utf8(trim_ws(part(d, 40, 72))) {
        Some(IsoError::InvalidUtf8)
    } else if !all_class(trim_ws(part(d, 8, 40)), false) {
        Some(IsoError::InvalidCharacter)
    } else if !all_class(trim_ws(part(d, 40, 72)), true) {
        Some(IsoError::InvalidCharacter)
    } else if error_of(record_name_result(part(d, 156, 190))) is Some {
        error_of(record_name_result(part(d, 156, 190)))
    } else if error_of(field_result(part(d, 190, 318), false, true)) is Some {
        error_of(field_result(part(d, 190, 318), false, true))
    } else if error_of(field_result(part(d, 318, 446), false, false)) is Some {
        error_of(field_result(part(d, 318, 446), false, false))
    } else if error_of(field_result(part(d, 446, 574), false, false)) is Some {
        error_of(field_result(part(d, 446, 574), false, false))
    } else if error_of(field_result(part(d, 574, 702), false, false)) is Some {
        error_of(field_result(part(d, 574, 702), false, false))
    } else if error_of(field_result(part(d, 702, 739), false, true)) is Some {
        error_of(field_result(part(d, 702, 739), false, true))
    } else if error_of(field_result(part(d, 739, 776), false, true)) is Some {
        error_of(field_result(part(d, 739, 776), false, true))
    } else if error_of(field_result(part(d, 776, 813), false, true)) is Some {
        error_of(field_result(part(d, 776, 813), false, true))
    } else if error_of(datetime_from(part(d, 813, 830))) is Some {
        error_of(datetime_from(part(d, 813, 830)))
    } else if error_of(datetime_from(part(d, 830, 847))) is Some {
        error_of(datetime_from(part(d, 830, 847)))
    } else if error_of(datetime_from(part(d, 847, 864))) is Some {
        error_of(datetime_from(part(d, 847, 864)))
    } else if error_of(datetime_from(part(d, 864, 881))) is Some {
        error_of(datetime_from(part(d, 864, 881)))
    } else {
        None
    }
}

/// A text field was read as the given string.
pub open spec fn field_read(s: Seq<u8>, raw: Seq<u8>, d: bool) -> bool {
    field_result(raw, false, d) == Ok::<Seq<u8>, IsoError>(s)
}

/// A primary volume was read from a descriptor.
pub open spec fn primary_parsed(p: PrimaryVolume, d: Seq<u8>) -> bool {
    primary_fields_parsed(p, d) && p.path_table@.len() == 0
}

/// The fields of a primary volume, all but its path table, were read from a descriptor.
#[verifier::opaque]
pub open spec fn primary_fields_parsed(p: PrimaryVolume, d: Seq<u8>) -> bool {
    &&& p.system.0@ == upper_seq(trim_ws(part(d, 8, 40)))
    &&& p.volume_id.0@ == upper_seq(trim_ws(part(d, 40, 72)))
    &&& p.size == le32(d, 80)
    &&& p.total_volumes == le16(d, 120)
    &&& p.this_volume == le16(d, 124)
    &&& p.block_size == le16(d, 128)
    &&& p.path_table_size == le32(d, 132)
    &&& p.path_table_location == le32(d, 140)
    &&& p.optional_path_table_location == le32(d, 144)
    &&& record_name_result(part(d, 156, 190)) matches Ok(name) && record_parsed(
        p.root,
        part(d, 156, 190),
        name,
    )
    &&& field_read(p.volume_set_id.0@, part(d, 190, 318), true)
    &&& field_read(p.publisher.0@, part(d, 318, 446), false)
    &&& field_read(p.data_preparer.0@, part(d, 446, 574), false)
    &&& field_read(p.application.0@, part(d, 574, 702), false)
    &&& field_read(p.copyright_file.0@, part(d, 702, 739), true)
    &&& field_read(p.abstract_file.0@, part(d, 739, 776), true)
    &&& field_read(p.bibliographic_file.0@, part(d, 776, 813), true)
    &&& datetime_from(part(d, 813, 830)) == Ok::<Iso9660Datetime, IsoError>(p.creation)
    &&& datetime_from(part(d, 830, 847)) == Ok::<Iso9660Datetime, IsoError>(p.modification)
    &&& datetime_from(part(d, 847, 864)) == Ok::<Iso9660Datetime, IsoError>(p.expiration)
    &&& datetime_from(part(d, 864, 881)) == Ok::<Iso9660Datetime, IsoError>(p.beginning)
    &&& p.application_specific@ == part(d, 883, 1395)
    &&& p.volume_data@.len() == 0
}

/// The fields of a primary volume fit their places in the descriptor.
pub open spec fn primary_writable(p: PrimaryVolume) -> bool {
    &&& p.system.0@.len() <= 32
    &&& p.volume_id.0@.len() <= 32
    &&& p.root.name.0@.len() <= 1
    &&& p.volume_set_id.0@.len() <= 128
    &&& p.publisher.0@.len() <= 128
    &&& p.data_preparer.0@.len() <= 128
    &&& p.application.0@.len() <= 128
    &&& p.copyright_file.0@.len() <= 37
    &&& p.abstract_file.0@.len() <= 37
    &&& p.bibliographic_file.0@.len() <= 37
    &&& datetime_fits(p.creation)
    &&& datetime_fits(p.modification)
    &&& datetime_fits(p.expiration)
    &&& datetime_fits(p.beginning)
}

/// Zero bytes.
pub open spec fn zeros(n: nat) -> Seq<u8> {
    Seq::new(n, |i: int| 0u8)
}

/// Bytes with those at offset `at` replaced by `src`; a name for `splice` that proofs unfold
/// only where they need to.
#[verifier::opaque]
pub open spec fn put(s: Seq<u8>, at: int, src: Seq<u8>) -> Seq<u8> {
    splice(s, at, src)
}

/// Replacing bytes keeps the length.
pub broadcast proof fn lemma_put_len(s: Seq<u8>, at: int, src: Seq<u8>)
    requires
        0 <= at,
        at + src.len() <= s.len(),
    ensures
        #[trigger] put(s, at, src).len() == s.len(),
{
    reveal(put);
}

/// Replacing bytes leaves the bytes outside them as they were.
pub broadcast proof fn lemma_put_frame(s: Seq<u8>, at: int, src: Seq<u8>, lo: int, hi: int)
    requires
        0 <= at,
        at + src.len() <= s.len(),
        0 <= lo <= hi <= s.len(),
        hi <= at || at + src.len() <= lo,
    ensures
        #[trigger] put(s, at, src).subrange(lo, hi) == s.subrange(lo, hi),
{
    reveal(put);
    assert(splice(s, at, src).subrange(lo, hi) =~= s.subrange(lo, hi));
}

/// Replacing bytes puts the new bytes in their place.
pub broadcast proof fn lemma_put_here(s: Seq<u8>, at: int, src: Seq<u8>)
    requires
        0 <= at,
        at + src.len() <= s.len(),
    ensures
        #[trigger] put(s, at, src).subrange(at, at + src.len()) == src,
{
    reveal(put);
    assert(splice(s, at, src).subrange(at, at + src.len()) =~= src);
}

/// Changing one byte leaves the bytes around it as they were.
pub broadcast proof fn lemma_update_frame(s: Seq<u8>, i: int, v: u8, lo: int, hi: int)
    requires
        0 <= i < s.len(),
        0 <= lo <= hi <= s.len(),
        hi <= i || i < lo,
    ensures
        #[trigger] s.update(i, v).subrange(lo, hi) == s.subrange(lo, hi),
{
    assert(s.update(i, v).subrange(lo, hi) =~= s.subrange(lo, hi));
}

/// What writing a primary descriptor does to the bytes.
pub open spec fn primary_written(d: Seq<u8>, p: PrimaryVolume) -> Seq<u8> {
    primary_tail(primary_numbers(primary_head(d, p), p), p)
}

/// Writing the head of a primary descriptor: its type, standard, version and identifiers.
pub open spec fn primary_head(d: Seq<u8>, p: PrimaryVolume) -> Seq<u8> {
    put(
        put(put(put(d.update(0, 1u8), 2, cd001()).update(7, 1u8), 8, padded(p.system.0@, 32)), 40, padded(p.volume_id.0@, 32)),
        72,
        zeros(8),
    )
}

/// Writing the number fields of a primary descriptor, from byte 80 to byte 156.
pub open spec fn primary_numbers(a: Seq<u8>, p: PrimaryVolume) -> Seq<u8> {
    let b = put(put(put(put(a, 80, le32_bytes(p.size)), 84, be32_bytes(p.size)), 88, zeros(32)), 120, le16_bytes(p.total_volumes));
    let c = put(put(put(put(put(b, 122, be16_bytes(p.total_volumes)), 124, le16_bytes(p.this_volume)), 126, be16_bytes(p.this_volume)), 128, le16_bytes(p.block_size)), 130, be16_bytes(p.block_size));
    put(put(put(put(put(put(c, 132, le32_bytes(p.path_table_size)), 136, be32_bytes(p.path_table_size)), 140, le32_bytes(p.path_table_location)), 144, le32_bytes(p.optional_path_table_location)), 148, be32_bytes(p.path_table_location)), 152, be32_bytes(p.optional_path_table_location))
}

/// Writing the rest of a primary descriptor: the root record, the text fields, the dates and
/// the application bytes.
pub open spec fn primary_tail(e: Seq<u8>, p: PrimaryVolume) -> Seq<u8> {
    let f = put(put(put(put(put(e, 156, record_image(p.root)), 190, padded(p.volume_set_id.0@, 128)), 318, padded(p.publisher.0@, 128)), 446, padded(p.data_preparer.0@, 128)), 574, padded(p.application.0@, 128));
    let g = put(put(put(f, 702, padded(p.copyright_file.0@, 37)), 739, padded(p.abstract_file.0@, 37)), 776, padded(p.bibliographic_file.0@, 37));
    let h = put(put(put(put(g, 813, datetime_image(p.creation)), 830, datetime_image(p.modification)), 847, datetime_image(p.expiration)), 864, datetime_image(p.beginning));
    put(h.update(881, 1u8).update(882, 0u8), 883, p.application_specific@)
}

/// Text padded with spaces on the right to a width.
fn padded_text(s: &Vec<u8>, w: usize) -> (r: Vec<u8>)
    requires
        s@.len() <= w,
    ensures
        r@ == padded(s@, w as nat),
{
    let mut r: Vec<u8> = Vec::new();
    let mut i: usize = 0;
    while i < s.len()
        invariant
            i <= s@.len(),
            r@ == s@.take(i as int),
        decreases s.len() - i,
    {
        r.push(s[i]);
        assert(r@ =~= s@.take(i + 1));
        i = i + 1;
    }
    let mut k: usize = s.len();
    assert(s@.take(s@.len() as int) =~= s@);
    while k < w
        invariant
            s@.len() <= k <= w,
            r@ == s@ + Seq::new((k - s@.len()) as nat, |i: int| 32u8),
        decreases w - k,
    {
        r.push(32);
        assert(r@ =~= s@ + Seq::new((k + 1 - s@.len()) as nat, |i: int| 32u8));
        k = k + 1;
    }
    r
}

/// Zero bytes.
fn zero_bytes(n: usize) -> (r: Vec<u8>)
    ensures
        r@ == zeros(n as nat),
{
    let mut r: Vec<u8> = Vec::new();
    let mut i: usize = 0;
    while i < n
        invariant
            i <= n,
            r@ == zeros(i as nat),
        decreases n - i,
    {
        r.push(0);
        assert(r@ =~= zeros((i + 1) as nat));
        i = i + 1;
    }
    r
}

fn le16_vec(x: u16) -> (r: Vec<u8>)
    ensures
        r@ == le16_bytes(x),
{
    let mut v: Vec<u8> = Vec::new();
    push_le16(&mut v, x);
    assert(v@ =~= le16_bytes(x));
    v
}

fn be16_vec(x: u16) -> (r: Vec<u8>)
    ensures
        r@ == be16_bytes(x),
{
    let mut v: Vec<u8> = Vec::new();
    push_be16(&mut v, x);
    assert(v@ =~= be16_bytes(x));
    v
}

fn le32_vec(x: u32) -> (r: Vec<u8>)
    ensures
        r@ == le32_bytes(x),
{
    let mut v: Vec<u8> = Vec::new();
    push_le32(&mut v, x);
    assert(v@ =~= le32_bytes(x));
    v
}

fn be32_vec(x: u32) -> (r: Vec<u8>)
    ensures
        r@ == be32_bytes(x),
{
    let mut v: Vec<u8> = Vec::new();
    push_be32(&mut v, x);
    assert(v@ =~= be32_bytes(x));
    v
}

/// Copy 512 bytes of a descriptor.
fn application_bytes(v: &[u8]) -> (r: [u8; 512])
    requires
        v@.len() == 2048,
    ensures
        r@ == part(v@, 883, 1395),
{
    let mut a = [0u8; 512];
    let mut i: usize = 0;
    while i < 512
        invariant
            v@.len() == 2048,
            i <= 512,
            forall|j: int| 0 <= j < i ==> a@[j] == v@[883 + j],
        decreases 512 - i,
    {
        a[i] = v[883 + i];
        i = i + 1;
    }
    assert(a@ =~= part(v@, 883, 1395));
    a
}

impl PrimaryVolume {
    /// A primary volume of the default values: a blank system identifier, the volume
    /// "DEFAULT", one volume of one block of 2048 bytes, and everything else zero or empty
    pub fn default() -> (r: Self)
        ensures
            r.system.0@ == Seq::new(32, |i: int| 32u8),
            r.volume_id.0@ == seq![68u8, 69u8, 70u8, 65u8, 85u8, 76u8, 84u8],
            r.size == 1,
            r.total_volumes == 1,
            r.this_volume == 1,
            r.block_size == 2048,
            r.path_table_size == 1,
            r.path_table_location == 0,
            r.optional_path_table_location == 0,
            r.root.location_lba == 0 && r.root.name.0@.len() == 0,
            r.volume_set_id.0@.len() == 0,
            r.publisher.0@.len() == 0,
            r.data_preparer.0@.len() == 0,
            r.application.0@.len() == 0,
            r.copyright_file.0@.len() == 0,
            r.abstract_file.0@.len() == 0,
            r.bibliographic_file.0@.len() == 0,
            r.creation == Iso9660Datetime::default_spec(),
            r.modification == Iso9660Datetime::default_spec(),
            r.expiration == Iso9660Datetime::default_spec(),
            r.beginning == Iso9660Datetime::default_spec(),
            r.application_specific@ == zeros(512),
            r.path_table@.len() == 0,
            r.volume_data@.len() == 0,
    {
        let mut system: Vec<u8> = Vec::new();
        let mut i: usize = 0;
        while i < 32
            invariant
                i <= 32,
                system@ == Seq::new(i as nat, |j: int| 32u8),
            decreases 32 - i,
        {
            system.push(32);
            assert(system@ =~= Seq::new((i + 1) as nat, |j: int| 32u8));
            i = i + 1;
        }
        let volume_id = vec![68u8, 69u8, 70u8, 65u8, 85u8, 76u8, 84u8];
        let app = [0u8; 512];
        assert(app@ =~= zeros(512));
        Self {
            system: Iso9660StringA(system),
            volume_id: Iso9660StringD(volume_id),
            size: 1,
            total_volumes: 1,
            this_volume: 1,
            block_size: 2048,
            path_table_size: 1,
            path_table_location: 0,
            optional_path_table_location: 0,
            root: Iso9660DirectoryRecord::default(),
            volume_set_id: Iso9660StringD::new(),
            publisher: Iso9660StringA::new(),
            data_preparer: Iso9660StringA::new(),
            application: Iso9660StringA::new(),
            copyright_file: Iso9660StringD::new(),
            abstract_file: Iso9660StringD::new(),
            bibliographic_file: Iso9660StringD::new(),
            creation: Iso9660Datetime::default(),
            modification: Iso9660Datetime::default(),
            expiration: Iso9660Datetime::default(),
            beginning: Iso9660Datetime::default(),
            application_specific: app,
            path_table: Vec::new(),
            volume_data: Vec::new(),
        }
    }

    /// Read a primary volume from its descriptor
    #[verifier::rlimit(40)]
    pub fn try_from(value: &[u8; 2048]) -> (r: Result<Self, IsoError>)
        requires
            primary_readable(value@),
        ensures
            match primary_error(value@) {
                Some(e) => r == Err::<Self, IsoError>(e),
                None => r matches Ok(p) && primary_parsed(p, value@),
            },
    {
        proof {
            reveal(primary_error);
            reveal(primary_fields_parsed);
            reveal(primary_readable);
        }
        let v = value.as_slice();
        match check_standard(value) {
            Ok(_) => {},
            Err(e) => {
                return Err(e);
            },
        }
        let sys = match read_text(slice_subrange(v, 8, 40), false) {
            Ok(t) => t,
            Err(e) => {
                return Err(e);
            },
        };
        let vol = match read_text(slice_subrange(v, 40, 72), false) {
            Ok(t) => t,
            Err(e) => {
                return Err(e);
            },
        };
        let system = match Iso9660StringA::try_from(sys) {
            Ok(s) => s,
            Err(e) => {
                return Err(e);
            },
        };
        let volume_id = match Iso9660StringD::try_from(vol) {
            Ok(s) => s,
            Err(e) => {
                return Err(e);
            },
        };
        let root_bytes = slice_subrange(v, 156, 190);
        let root = match Iso9660DirectoryRecord::try_from(root_bytes) {
            Ok(r) => r,
            Err(e) => {
                return Err(e);
            },
        };
        let volume_set_id = match read_field_checked(slice_subrange(v, 190, 318), true) {
            Ok(s) => Iso9660StringD(s),
            Err(e) => {
                return Err(e);
            },
        };
        let publisher = match read_field_checked(slice_subrange(v, 318, 446), false) {
            Ok(s) => Iso9660StringA(s),
            Err(e) => {
                return Err(e);
            },
        };
        let data_preparer = match read_field_checked(slice_subrange(v, 446, 574), false) {
            Ok(s) => Iso9660StringA(s),
            Err(e) => {
                return Err(e);
            },
        };
        let application = match read_field_checked(slice_subrange(v, 574, 702), false) {
            Ok(s) => Iso9660StringA(s),
            Err(e) => {
                return Err(e);
            },
        };
        let copyright_file = match read_field_checked(slice_subrange(v, 702, 739), true) {
            Ok(s) => Iso9660StringD(s),
            Err(e) => {
                return Err(e);
            },
        };
        let abstract_file = match read_field_checked(slice_subrange(v, 739, 776), true) {
            Ok(s) => Iso9660StringD(s),
            Err(e) => {
                return Err(e);
            },
        };
        let bibliographic_file = match read_field_checked(slice_subrange(v, 776, 813), true) {
            Ok(s) => Iso9660StringD(s),
            Err(e) => {
                return Err(e);
            },
        };
        let creation = match Iso9660Datetime::try_from(slice_subrange(v, 813, 830)) {
            Ok(d) => d,
            Err(e) => {
                return Err(e);
            },
        };
        let modification = match Iso9660Datetime::try_from(slice_subrange(v, 830, 847)) {
            Ok(d) => d,
            Err(e) => {
                return Err(e);
            },
        };
        let expiration = match Iso9660Datetime::try_from(slice_subrange(v, 847, 864)) {
            Ok(d) => d,
            Err(e) => {
                return Err(e);
            },
        };
        let beginning = match Iso9660Datetime::try_from(slice_subrange(v, 864, 881)) {
            Ok(d) => d,
            Err(e) => {
                return Err(e);
            },
        };
        let application_specific = application_bytes(v);
        Ok(
            Self {
                system,
                volume_id,
                size: read_le32(v, 80),
                total_volumes: read_le16(v, 120),
                this_volume: read_le16(v, 124),
                block_size: read_le16(v, 128),
                path_table_size: read_le32(v, 132),
                path_table_location: read_le32(v, 140),
                optional_path_table_location: read_le32(v, 144),
                root,
                volume_set_id,
                publisher,
                data_preparer,
                application,
                copyright_file,
                abstract_file,
                bibliographic_file,
                creation,
                modification,
                expiration,
                beginning,
                application_specific,
                path_table: Vec::new(),
                volume_data: Vec::new(),
            },
        )
    }

    /// Write the contents of the volume descriptor to the specified buffer
    #[verifier::rlimit(40)]
    pub fn write_descriptor(&self, descriptor: &mut [u8; 2048])
        requires
            primary_writable(*self),
        ensures
            final(descriptor)@ == primary_written(old(descriptor)@, *self),
    {
        proof {
            reveal(put);
        }
        descriptor[0] = 1;
        copy_into(descriptor, 2, cd001_bytes().as_slice());
        descriptor[7] = 1;
        copy_into(descriptor, 8, padded_text(&self.system.0, 32).as_slice());
        copy_into(descriptor, 40, padded_text(&self.volume_id.0, 32).as_slice());
        copy_into(descriptor, 72, zero_bytes(8).as_slice());
        copy_into(descriptor, 80, le32_vec(self.size).as_slice());
        copy_into(descriptor, 84, be32_vec(self.size).as_slice());
        copy_into(descriptor, 88, zero_bytes(32).as_slice());
        copy_into(descriptor, 120, le16_vec(self.total_volumes).as_slice());
        copy_into(descriptor, 122, be16_vec(self.total_volumes).as_slice());
        copy_into(descriptor, 124, le16_vec(self.this_volume).as_slice());
        copy_into(descriptor, 126, be16_vec(self.this_volume).as_slice());
        copy_into(descriptor, 128, le16_vec(self.block_size).as_slice());
        copy_into(descriptor, 130, be16_vec(self.block_size).as_slice());
        copy_into(descriptor, 132, le32_vec(self.path_table_size).as_slice());
        copy_into(descriptor, 136, be32_vec(self.path_table_size).as_slice());
        copy_into(descriptor, 140, le32_vec(self.path_table_location).as_slice());
        copy_into(descriptor, 144, le32_vec(self.optional_path_table_location).as_slice());
        copy_into(descriptor, 148, be32_vec(self.path_table_location).as_slice());
        copy_into(descriptor, 152, be32_vec(self.optional_path_table_location).as_slice());
        copy_into(descriptor, 156, self.root.image().as_slice());
        copy_into(descriptor, 190, padded_text(&self.volume_set_id.0, 128).as_slice());
        copy_into(descriptor, 318, padded_text(&self.publisher.0, 128).as_slice());
        copy_into(descriptor, 446, padded_text(&self.data_preparer.0, 128).as_slice());
        copy_into(descriptor, 574, padded_text(&self.application.0, 128).as_slice());
        copy_into(descriptor, 702, padded_text(&self.copyright_file.0, 37).as_slice());
        copy_into(descriptor, 739, padded_text(&self.abstract_file.0, 37).as_slice());
        copy_into(descriptor, 776, padded_text(&self.bibliographic_file.0, 37).as_slice());
        proof {
            crate::iso9660::lemma_datetime_image_len(self.creation);
            crate::iso9660::lemma_datetime_image_len(self.modification);
            crate::iso9660::lemma_datetime_image_len(self.expiration);
            crate::iso9660::lemma_datetime_image_len(self.beginning);
        }
        copy_into(descriptor, 813, self.creation.image().as_slice());
        copy_into(descriptor, 830, self.modification.image().as_slice());
        copy_into(descriptor, 847, self.expiration.image().as_slice());
        copy_into(descriptor, 864, self.beginning.image().as_slice());
        descriptor[881] = 1;
        descriptor[882] = 0;
        copy_into(descriptor, 883, self.application_specific.as_slice());
    }
}

// ------------------------------------------------------------------------------------------
// path tables
// ------------------------------------------------------------------------------------------

/// A path table: the entries of all directories, one after another
pub struct PathTable {
    /// The bytes of the table
    pub data: Vec<u8>,
    /// Is this path table stored in big endian format?
    pub be: bool,
}

/// How far past offset `i` the table goes, as a measure that shrinks along the table.
pub open spec fn table_rest(data: Seq<u8>, i: int) -> int {
    if i < data.len() {
        data.len() - i
    } else {
        0
    }
}

/// Reading the table's entries from offset `i` on does not stop the program: each entry that
/// is reached fits in the table, until one whose name cannot be read.
pub open spec fn table_safe(data: Seq<u8>, i: int) -> bool
    decreases table_rest(data, i),
{
    if i < 0 || i >= data.len() {
        true
    } else {
        &&& entry_readable(data.skip(i))
        &&& entry_name_result(data.skip(i)) is Ok ==> table_safe(
            data,
            i + entry_len(data[i] as nat),
        )
    }
}

/// The offsets of the entries read from offset `i` on: one entry after another until the end
/// of the table or an entry whose name cannot be read.
pub open spec fn table_offsets(data: Seq<u8>, i: int) -> Seq<int>
    decreases table_rest(data, i),
{
    if i < 0 || i >= data.len() {
        Seq::empty()
    } else if entry_name_result(data.skip(i)) is Err {
        Seq::empty()
    } else {
        seq![i] + table_offsets(data, i + entry_len(data[i] as nat))
    }
}

/// The entries were read from the table, in order.
#[verifier::opaque]
pub open spec fn table_read(entries: Seq<PathTableEntry>, data: Seq<u8>, be: bool) -> bool {
    let offs = table_offsets(data, 0);
    &&& entries.len() == offs.len()
    &&& forall|k: int|
        0 <= k < offs.len() ==> entry_parsed(
            #[trigger] entries[k],
            data.skip(offs[k]),
            be,
            entry_name_result(data.skip(offs[k]))->Ok_0,
        )
}

impl PathTable {
    /// The entries of the table, in order, up to the first one that cannot be read
    pub fn entries(&self) -> (r: Vec<PathTableEntry>)
        requires
            table_safe(self.data@, 0),
        ensures
            table_read(r@, self.data@, self.be),
    {
        proof {
            reveal(table_read);
        }
        let ghost data = self.data@;
        let mut r: Vec<PathTableEntry> = Vec::new();
        let mut i: usize = 0;
        let ghost mut done: Seq<int> = Seq::empty();
        while i < self.data.len()
            invariant
                data == self.data@,
                i <= data.len(),
                table_safe(data, i as int),
                table_offsets(data, 0) == done + table_offsets(data, i as int),
                r@.len() == done.len(),
                forall|k: int|
                    0 <= k < done.len() ==> entry_parsed(
                        #[trigger] r@[k],
                        data.skip(done[k]),
                        self.be,
                        entry_name_result(data.skip(done[k]))->Ok_0,
                    ),
            decreases data.len() - i,
        {
            proof {
                reveal(table_read);
            }
            let rest = slice_subrange(self.data.as_slice(), i, self.data.len());
            assert(rest@ =~= data.skip(i as int));
            let p = if self.be {
                PathTableEntry::from_be_data(rest)
            } else {
                PathTableEntry::from_le_data(rest)
            };
            match p {
                Ok(e) => {
                    let l = e.length();
                    proof {
                        assert(table_offsets(data, i as int) == seq![i as int] + table_offsets(
                            data,
                            i + l,
                        ));
                        assert(done + table_offsets(data, i as int) =~= done.push(i as int)
                            + table_offsets(data, i + l));
                        done = done.push(i as int);
                    }
                    r.push(e);
                    if l > self.data.len() - i {
                        assert(table_offsets(data, i + l) =~= Seq::<int>::empty());
                        assert(table_offsets(data, 0) =~= done);
                        return r;
                    }
                    i = i + l;
                },
                Err(_) => {
                    assert(table_offsets(data, i as int) =~= Seq::<int>::empty());
                    assert(table_offsets(data, 0) =~= done);
                    return r;
                },
            }
        }
        assert(table_offsets(data, i as int) =~= Seq::<int>::empty());
        assert(table_offsets(data, 0) =~= done);
        r
    }
}

/// The bytes of the path table that a primary volume points to.
pub open spec fn table_data(location: u32, size: u32, iso: Seq<u8>) -> Seq<u8> {
    iso.subrange(location * 2048, location * 2048 + size)
}

/// The directory record at block `lba` of the image can be read: it is in the image, and
/// reading it neither fails nor stops the program.
pub open spec fn directory_readable(lba: u32, iso: Seq<u8>) -> bool {
    let at = lba * 2048;
    &&& at < iso.len()
    &&& at + iso[at] <= iso.len()
    &&& record_readable(iso.subrange(at, at + iso[at]))
    &&& record_read_ok(iso.subrange(at, at + iso[at]))
}

/// Reading the path table of a primary volume, and the directory record of each of its
/// entries, does not stop the program.
#[verifier::opaque]
pub open spec fn primary_data_readable(location: u32, size: u32, iso: Seq<u8>) -> bool {
    let data = table_data(location, size, iso);
    &&& location * 2048 + size <= iso.len()
    &&& table_safe(data, 0)
    &&& forall|k: int|
        0 <= k < table_offsets(data, 0).len() ==> directory_readable(
            le32(#[trigger] data.skip(table_offsets(data, 0)[k]), 2),
            iso,
        )
}

impl PrimaryVolume {
    /// Read the path table of the volume from the image, and check the directory record of
    /// each entry
    pub fn read_volume_data(&mut self, iso: &[u8])
        requires
            primary_data_readable(old(self).path_table_location, old(self).path_table_size, iso@),
        ensures
            *final(self) == (PrimaryVolume { path_table: final(self).path_table, ..*old(self) }),
            table_read(
                final(self).path_table@,
                table_data(old(self).path_table_location, old(self).path_table_size, iso@),
                false,
            ),
    {
        proof {
            reveal(primary_data_readable);
            reveal(table_read);
        }
        let n = iso.len();
        let pt_start = self.path_table_location as u64 * 2048;
        let pt_end = pt_start + self.path_table_size as u64;
        let data = vstd::slice::slice_to_vec(
            slice_subrange(iso, pt_start as usize, pt_end as usize),
        );
        let pt = PathTable { data, be: false };
        let pt = pt.entries();
        let ghost tdata = table_data(self.path_table_location, self.path_table_size, iso@);
        let mut k: usize = 0;
        while k < pt.len()
            invariant
                n == iso@.len(),
                table_read(pt@, tdata, false),
                primary_data_readable(self.path_table_location, self.path_table_size, iso@),
                tdata == table_data(self.path_table_location, self.path_table_size, iso@),
            decreases pt.len() - k,
        {
            proof {
                reveal(primary_data_readable);
                reveal(table_read);
            }
            let ghost off = table_offsets(tdata, 0)[k as int];
            assert(entry_parsed(pt@[k as int], tdata.skip(off), false, entry_name_result(tdata.skip(off))->Ok_0));
            let lba = pt[k].location_lba as u64 * 2048;
            assert(directory_readable(pt@[k as int].location_lba, iso@));
            let size = iso[lba as usize];
            let dir = slice_subrange(iso, lba as usize, lba as usize + size as usize);
            let _d = Iso9660DirectoryRecord::try_from(dir);
            k = k + 1;
        }
        self.path_table = pt;
    }
}

// ------------------------------------------------------------------------------------------
// any volume descriptor
// ------------------------------------------------------------------------------------------

/// A volume descriptor of any type
pub enum Iso9660Volume {
    /// A boot record
    Boot(BootVolume),
    /// The primary volume descriptor
    Primary(PrimaryVolume),
    /// A supplementary volume descriptor
    Supplementary(SupplementaryVolume),
    /// A volume partition descriptor
    Volume(VolumePartition),
    /// The end of the descriptors
    Terminator(VolumeTerminator),
}

/// Reading a descriptor does not stop the program: its type is not one whose reading is
/// unsupported, and the checks of its type hold.
pub open spec fn volume_readable(d: Seq<u8>) -> bool {
    &&& d[0] != 2 && d[0] != 3
    &&& (d[0] == 0 || d[0] == 255) ==> standard_ok(d)
    &&& d[0] == 1 ==> primary_readable(d)
}

/// Why a descriptor cannot be read, if it cannot.
pub open spec fn volume_error(d: Seq<u8>) -> Option<IsoError> {
    if d[0] == 0 {
        boot_error(d)
    } else if d[0] == 1 {
        primary_error(d)
    } else if d[0] == 255 {
        if !valid_utf8(standard_of(d)) {
            Some(IsoError::InvalidUtf8)
        } else {
            None
        }
    } else {
        Some(IsoError::InvalidDescriptor)
    }
}

/// A volume was read from a descriptor.
pub open spec fn volume_parsed(v: Iso9660Volume, d: Seq<u8>) -> bool {
    match v {
        Iso9660Volume::Boot(b) => d[0] == 0 && boot_parsed(b, d),
        Iso9660Volume::Primary(p) => d[0] == 1 && primary_parsed(p, d),
        Iso9660Volume::Terminator(_) => d[0] == 255,
        _ => false,
    }
}

/// The volume can be written to a descriptor.
pub open spec fn volume_writable(v: Iso9660Volume) -> bool {
    match v {
        Iso9660Volume::Primary(p) => primary_writable(p),
        _ => true,
    }
}

/// What writing a volume's descriptor does to the bytes.
pub open spec fn volume_written(d: Seq<u8>, v: Iso9660Volume) -> Seq<u8> {
    match v {
        Iso9660Volume::Boot(_) => boot_written(d),
        Iso9660Volume::Primary(p) => primary_written(d, p),
        Iso9660Volume::Terminator(_) => terminator_written(d),
        _ => d,
    }
}

/// Reading the data of a volume from the image does not stop the program.
pub open spec fn volume_data_readable(v: Iso9660Volume, iso: Seq<u8>) -> bool {
    match v {
        Iso9660Volume::Primary(p) => primary_data_readable(
            p.path_table_location,
            p.path_table_size,
            iso,
        ),
        _ => true,
    }
}

/// A volume was read from a descriptor, and its data from the image.
pub open spec fn volume_read(v: Iso9660Volume, d: Seq<u8>, iso: Seq<u8>) -> bool {
    match v {
        Iso9660Volume::Primary(p) => d[0] == 1 && primary_fields_parsed(p, d) && table_read(
            p.path_table@,
            table_data(p.path_table_location, p.path_table_size, iso),
            false,
        ),
        _ => volume_parsed(v, d),
    }
}

impl Iso9660Volume {
    /// Read a volume descriptor of any type
    pub fn try_from(value: &[u8; 2048]) -> (r: Result<Self, IsoError>)
        requires
            volume_readable(value@),
        ensures
            match volume_error(value@) {
                Some(e) => r == Err::<Self, IsoError>(e),
                None => r matches Ok(v) && volume_parsed(v, value@),
            },
    {
        match value[0] {
            0 => match BootVolume::try_from(value) {
                Ok(b) => Ok(Self::Boot(b)),
                Err(e) => Err(e),
            },
            1 => match PrimaryVolume::try_from(value) {
                Ok(p) => Ok(Self::Primary(p)),
                Err(e) => Err(e),
            },
            255 => match VolumeTerminator::try_from(value) {
                Ok(t) => Ok(Self::Terminator(t)),
                Err(e) => Err(e),
            },
            _ => Err(IsoError::InvalidDescriptor),
        }
    }

    /// Write the contents of the volume descriptor to the specified buffer
    pub fn write_descriptor(&self, descriptor: &mut [u8; 2048])
        requires
            volume_writable(*self),
        ensures
            final(descriptor)@ == volume_written(old(descriptor)@, *self),
    {
        match self {
            Iso9660Volume::Boot(b) => b.write_descriptor(descriptor),
            Iso9660Volume::Primary(p) => p.write_descriptor(descriptor),
            Iso9660Volume::Terminator(t) => t.write_descriptor(descriptor),
            _ => {},
        }
    }

    /// Read the volume contents if applicable, storing them as necessary
    pub fn read_volume_data(&mut self, iso: &[u8])
        requires
            volume_data_readable(*old(self), iso@),
        ensures
            match *old(self) {
                Iso9660Volume::Primary(p) => *final(self) matches Iso9660Volume::Primary(q) && q
                    == (PrimaryVolume { path_table: q.path_table, ..p }) && table_read(
                    q.path_table@,
                    table_data(p.path_table_location, p.path_table_size, iso@),
                    false,
                ),
                _ => *final(self) == *old(self),
            },
    {
        match self {
            Iso9660Volume::Primary(p) => p.read_volume_data(iso),
            _ => {},
        }
    }

    /// Get the contents of the volume, if applicable; no volume type holds any
    pub fn get_volume_data(&self) -> (r: Option<Vec<u8>>)
        ensures
            r is None,
    {
        None
    }
}

// ------------------------------------------------------------------------------------------
// images
// ------------------------------------------------------------------------------------------

/// An iso9660 image: its system area and its volume descriptors
pub struct Iso9660Image {
    /// System area, must be 0x8000 bytes
    pub sys_area: Vec<u8>,
    /// The volume descriptors, the last of them the terminator
    pub volume_descriptors: Vec<Iso9660Volume>,
}

/// The bytes of the `k`-th volume descriptor of an image.
pub open spec fn descriptor_at(b: Seq<u8>, k: nat) -> Seq<u8> {
    b.subrange(0x8000 + 2048 * k as int, 0x8000 + 2048 * (k + 1) as int)
}

/// The image holds all of its `k`-th descriptor.
pub open spec fn descriptor_present(b: Seq<u8>, k: nat) -> bool {
    0x8000 + 2048 * (k + 1) <= b.len()
}

/// How many bytes of the image are past its `k`-th descriptor, as a measure.
pub open spec fn image_rest(b: Seq<u8>, k: nat) -> int {
    if 0x8000 + 2048 * k < b.len() {
        b.len() - (0x8000 + 2048 * k)
    } else {
        0
    }
}

/// Reading the descriptors of the image from the `k`-th on does not stop the program.
pub open spec fn image_readable_from(b: Seq<u8>, k: nat) -> bool
    decreases image_rest(b, k),
{
    if !descriptor_present(b, k) {
        true
    } else {
        let d = descriptor_at(b, k);
        &&& volume_readable(d)
        &&& volume_error(d) is None ==> d[0] == 1 ==> primary_data_readable(
            le32(d, 140),
            le32(d, 132),
            b,
        )
        &&& volume_error(d) is None ==> d[0] != 255 ==> image_readable_from(b, k + 1)
    }
}

/// What reading the descriptors of the image from the `k`-th on gives: how many there are up
/// to and with the terminator, or why one cannot be read.
pub open spec fn image_result_from(b: Seq<u8>, k: nat) -> Result<nat, IsoError>
    decreases image_rest(b, k),
{
    if !descriptor_present(b, k) {
        Err(IsoError::Truncated)
    } else {
        let d = descriptor_at(b, k);
        match volume_error(d) {
            Some(e) => Err(e),
            None => if d[0] == 255 {
                Ok(k + 1)
            } else {
                image_result_from(b, k + 1)
            },
        }
    }
}

/// Reading an image does not stop the program.
pub open spec fn image_readable(b: Seq<u8>) -> bool {
    b.len() >= 0x8000 ==> image_readable_from(b, 0)
}

/// What reading an image gives: how many volume descriptors it has, or why it cannot be read.
pub open spec fn image_result(b: Seq<u8>) -> Result<nat, IsoError> {
    if b.len() < 0x8000 {
        Err(IsoError::Truncated)
    } else {
        image_result_from(b, 0)
    }
}

/// The bytes of the descriptors of these volumes, each written over zeros.
pub open spec fn descriptors_written(vs: Seq<Iso9660Volume>) -> Seq<u8>
    decreases vs.len(),
{
    if vs.len() == 0 {
        Seq::empty()
    } else {
        descriptors_written(vs.drop_last()) + volume_written(zeros(2048), vs.last())
    }
}

proof fn lemma_image_step(b: Seq<u8>, k: nat)
    requires
        descriptor_present(b, k),
        image_readable_from(b, k),
    ensures
        ({
            let d = descriptor_at(b, k);
            &&& volume_readable(d)
            &&& volume_error(d) is None ==> d[0] == 1 ==> primary_data_readable(
                le32(d, 140),
                le32(d, 132),
                b,
            )
            &&& volume_error(d) is None && d[0] != 255 ==> image_readable_from(b, k + 1)
                && image_result_from(b, k) == image_result_from(b, k + 1)
            &&& volume_error(d) is None && d[0] == 255 ==> image_result_from(b, k) == Ok::<
                nat,
                IsoError,
            >(k + 1)
            &&& volume_error(d) matches Some(e) ==> image_result_from(b, k) == Err::<nat, IsoError>(
                e,
            )
        }),
{
}

proof fn lemma_image_truncated(b: Seq<u8>, k: nat)
    requires
        !descriptor_present(b, k),
    ensures
        image_result_from(b, k) == Err::<nat, IsoError>(IsoError::Truncated),
{
}

proof fn lemma_volume_read_after(before: Iso9660Volume, after: Iso9660Volume, d: Seq<u8>, b: Seq<u8>)
    requires
        volume_parsed(before, d),
        match before {
            Iso9660Volume::Primary(p) => after matches Iso9660Volume::Primary(q) && q == (
            PrimaryVolume { path_table: q.path_table, ..p }) && table_read(
                q.path_table@,
                table_data(p.path_table_location, p.path_table_size, b),
                false,
            ),
            _ => after == before,
        },
    ensures
        volume_read(after, d, b),
{
    reveal(primary_fields_parsed);
}

proof fn lemma_data_readable(v: Iso9660Volume, d: Seq<u8>, b: Seq<u8>)
    requires
        volume_parsed(v, d),
        d[0] == 1 ==> primary_data_readable(le32(d, 140), le32(d, 132), b),
    ensures
        volume_data_readable(v, b),
{
    reveal(primary_fields_parsed);
}

/// Copy the bytes of a descriptor out of the image.
fn descriptor_from(b: &[u8], at: usize) -> (r: [u8; 2048])
    requires
        at + 2048 <= b@.len(),
    ensures
        r@ == b@.subrange(at as int, at + 2048),
{
    let n = b.len();
    let mut a = [0u8; 2048];
    let mut i: usize = 0;
    while i < 2048
        invariant
            n == b@.len(),
            at + 2048 <= b@.len(),
            i <= 2048,
            forall|j: int| 0 <= j < i ==> a@[j] == b@[at + j],
        decreases 2048 - i,
    {
        a[i] = b[at + i];
        i = i + 1;
    }
    assert(a@ =~= b@.subrange(at as int, at + 2048));
    a
}

impl Iso9660Image {
    /// construct an empty iso image
    pub fn new() -> (r: Self)
        ensures
            r.sys_area@.len() == 0,
            r.volume_descriptors@.len() == 0,
    {
        Self { sys_area: Vec::new(), volume_descriptors: Vec::new() }
    }

    /// Read an image from its bytes: the system area, then volume descriptors up to and with
    /// the terminator, each reading its data from the image
    #[verifier::rlimit(100)]
    pub fn parse_bytes(b: &[u8]) -> (r: Result<Self, IsoError>)
        requires
            image_readable(b@),
        ensures
            match image_result(b@) {
                Err(e) => r == Err::<Self, IsoError>(e),
                Ok(n) => r matches Ok(img) && img.sys_area@ == b@.take(0x8000)
                    && img.volume_descriptors@.len() == n && forall|k: int|
                    0 <= k < n ==> volume_read(
                        #[trigger] img.volume_descriptors@[k],
                        descriptor_at(b@, k as nat),
                        b@,
                    ),
            },
    {
        let n = b.len();
        if n < 0x8000 {
            return Err(IsoError::Truncated);
        }
        let sys_area = vstd::slice::slice_to_vec(slice_subrange(b, 0, 0x8000));
        assert(sys_area@ =~= b@.take(0x8000));
        let mut descriptors: Vec<Iso9660Volume> = Vec::new();
        let mut pos: usize = 0x8000;
        let ghost mut k: nat = 0;
        loop
            invariant
                n == b@.len(),
                n >= 0x8000,
                sys_area@ == b@.take(0x8000),
                pos == 0x8000 + 2048 * k,
                pos <= n,
                image_result(b@) == image_result_from(b@, k),
                image_readable_from(b@, k),
                descriptors@.len() == k,
                forall|j: int|
                    0 <= j < k ==> volume_read(
                        #[trigger] descriptors@[j],
                        descriptor_at(b@, j as nat),
                        b@,
                    ),
            decreases n - pos,
        {
            if n - pos < 2048 {
                proof {
                    lemma_image_truncated(b@, k);
                }
                return Err(IsoError::Truncated);
            }
            proof {
                lemma_image_step(b@, k);
            }
            let desc = descriptor_from(b, pos);
            assert(desc@ == descriptor_at(b@, k));
            let mut p = match Iso9660Volume::try_from(&desc) {
                Ok(p) => p,
                Err(e) => {
                    return Err(e);
                },
            };
            proof {
                lemma_data_readable(p, desc@, b@);
            }
            let ghost before = p;
            p.read_volume_data(b);
            proof {
                lemma_volume_read_after(before, p, desc@, b@);
            }
            let done = match &p {
                Iso9660Volume::Terminator(_) => true,
                _ => false,
            };
            assert(volume_error(desc@) is None);
            assert(done ==> desc@[0] == 255);
            assert(!done ==> desc@[0] != 255);
            let ghost old_k = k;
            let ghost prev = descriptors@;
            descriptors.push(p);
            assert(descriptors@[old_k as int] == p);
            assert(volume_read(descriptors@[old_k as int], descriptor_at(b@, old_k), b@));
            assert forall|j: int| 0 <= j < old_k + 1 implies volume_read(
                #[trigger] descriptors@[j],
                descriptor_at(b@, j as nat),
                b@,
            ) by {
                if j < old_k {
                    assert(descriptors@[j] == prev[j]);
                }
            }
            pos = pos + 2048;
            proof {
                k = k + 1;
            }
            if done {
                assert(image_result(b@) == Ok::<nat, IsoError>(k));
                return Ok(Self { sys_area, volume_descriptors: descriptors });
            }
        }
    }

    /// The volume descriptors of the image, in order
    pub fn volume_descriptors(&self) -> (r: &Vec<Iso9660Volume>)
        ensures
            r@ == self.volume_descriptors@,
    {
        &self.volume_descriptors
    }

    /// The bytes of the image: its system area, then each volume descriptor written over
    /// zeros
    pub fn to_bytes(&self) -> (r: Vec<u8>)
        requires
            forall|k: int|
                0 <= k < self.volume_descriptors@.len() ==> volume_writable(
                    #[trigger] self.volume_descriptors@[k],
                ),
        ensures
            r@ == self.sys_area@ + descriptors_written(self.volume_descriptors@),
    {
        let mut out: Vec<u8> = Vec::new();
        let mut i: usize = 0;
        while i < self.sys_area.len()
            invariant
                i <= self.sys_area@.len(),
                out@ == self.sys_area@.take(i as int),
            decreases self.sys_area.len() - i,
        {
            out.push(self.sys_area[i]);
            assert(out@ =~= self.sys_area@.take(i + 1));
            i = i + 1;
        }
        assert(self.sys_area@.take(self.sys_area@.len() as int) =~= self.sys_area@);
        let mut k: usize = 0;
        while k < self.volume_descriptors.len()
            invariant
                k <= self.volume_descriptors@.len(),
                forall|j: int|
                    0 <= j < self.volume_descriptors@.len() ==> volume_writable(
                        #[trigger] self.volume_descriptors@[j],
                    ),
                out@ == self.sys_area@ + descriptors_written(
                    self.volume_descriptors@.take(k as int),
                ),
            decreases self.volume_descriptors.len() - k,
        {
            let mut vb = [0u8; 2048];
            assert(vb@ =~= zeros(2048));
            self.volume_descriptors[k].write_descriptor(&mut vb);
            let ghost before = out@;
            let mut j: usize = 0;
            while j < 2048
                invariant
                    j <= 2048,
                    out@ == before + vb@.take(j as int),
                decreases 2048 - j,
            {
                out.push(vb[j]);
                assert(out@ =~= before + vb@.take(j + 1));
                j = j + 1;
            }
            assert(vb@.take(2048) =~= vb@);
            assert(self.volume_descriptors@.take(k + 1).drop_last() =~= self.volume_descriptors@.take(
                k as int,
            ));
            assert(out@ =~= self.sys_area@ + descriptors_written(
                self.volume_descriptors@.take(k + 1),
            ));
            k = k + 1;
        }
        assert(self.volume_descriptors@.take(self.volume_descriptors@.len() as int)
            =~= self.volume_descriptors@);
        out
    }
}

/// A terminator reads back from the descriptor it writes, whatever the bytes were before.
pub proof fn lemma_terminator_reads_back(d: Seq<u8>)
    requires
        d.len() == 2048,
    ensures
        ({
            let w = terminator_written(d);
            &&& volume_readable(w)
            &&& volume_error(w) is None
            &&& w[0] == 255
        }),
{
    let w = terminator_written(d);
    assert(standard_of(w) =~= cd001());
    assert(crate::iso9660::all_ascii(cd001()));
    crate::iso9660::lemma_ascii_valid_utf8(cd001());
}

/// A primary descriptor holds each of its both-endian numbers in both byte orders: the
/// little endian half and the big endian half of each field read as the volume's number.
pub proof fn lemma_primary_both_endian_fields(d: Seq<u8>, p: PrimaryVolume)
    requires
        d.len() == 2048,
        primary_writable(p),
    ensures
        ({
            let w = primary_written(d, p);
            &&& w.len() == 2048
            &&& le32(w, 80) == p.size
            &&& be32(w, 84) == p.size
            &&& le16(w, 120) == p.total_volumes
            &&& be16(w, 122) == p.total_volumes
            &&& le16(w, 124) == p.this_volume
            &&& be16(w, 126) == p.this_volume
            &&& le16(w, 128) == p.block_size
            &&& be16(w, 130) == p.block_size
            &&& le32(w, 132) == p.path_table_size
            &&& be32(w, 136) == p.path_table_size
            &&& le32(w, 140) == p.path_table_location
            &&& be32(w, 148) == p.path_table_location
            &&& le32(w, 144) == p.optional_path_table_location
            &&& be32(w, 152) == p.optional_path_table_location
        }),
{
    let w = primary_written(d, p);
    let a = primary_head(d, p);
    let e = primary_numbers(a, p);
    lemma_primary_head_len(d, p);
    lemma_primary_numbers_fields(a, p);
    lemma_primary_tail_keeps(e, p);
    assert(w == primary_tail(e, p));
    assert(w.subrange(80, 156) == e.subrange(80, 156));
    crate::iso9660::lemma_number_bytes_read_back(p.size, p.total_volumes);
    crate::iso9660::lemma_number_bytes_read_back(p.path_table_size, p.this_volume);
    crate::iso9660::lemma_number_bytes_read_back(p.path_table_location, p.block_size);
    crate::iso9660::lemma_number_bytes_read_back(p.optional_path_table_location, p.block_size);
    assert forall|i: int| 80 <= i < 156 implies #[trigger] w[i] == e[i] by {
        assert(w.subrange(80, 156)[i - 80] == e.subrange(80, 156)[i - 80]);
    }
    assert(le32(w, 80) == le32(le32_bytes(p.size), 0));
    assert(be32(w, 84) == be32(be32_bytes(p.size), 0));
    assert(le16(w, 120) == le16(le16_bytes(p.total_volumes), 0));
    assert(be16(w, 122) == be16(be16_bytes(p.total_volumes), 0));
    assert(le16(w, 124) == le16(le16_bytes(p.this_volume), 0));
    assert(be16(w, 126) == be16(be16_bytes(p.this_volume), 0));
    assert(le16(w, 128) == le16(le16_bytes(p.block_size), 0));
    assert(be16(w, 130) == be16(be16_bytes(p.block_size), 0));
    assert(le32(w, 132) == le32(le32_bytes(p.path_table_size), 0));
    assert(be32(w, 136) == be32(be32_bytes(p.path_table_size), 0));
    assert(le32(w, 140) == le32(le32_bytes(p.path_table_location), 0));
    assert(be32(w, 148) == be32(be32_bytes(p.path_table_location), 0));
    assert(le32(w, 144) == le32(le32_bytes(p.optional_path_table_location), 0));
    assert(be32(w, 152) == be32(be32_bytes(p.optional_path_table_location), 0));
}

/// The head of a written primary descriptor is as long as the descriptor.
proof fn lemma_primary_head_len(d: Seq<u8>, p: PrimaryVolume)
    requires
        d.len() == 2048,
        primary_writable(p),
    ensures
        primary_head(d, p).len() == 2048,
{
    broadcast use lemma_put_len;

}

/// The number fields hold each number in its place, in the byte order of its half.
proof fn lemma_primary_numbers_fields(a: Seq<u8>, p: PrimaryVolume)
    requires
        a.len() == 2048,
    ensures
        ({
            let e = primary_numbers(a, p);
            &&& e.len() == 2048
            &&& e.subrange(80, 84) == le32_bytes(p.size)
            &&& e.subrange(84, 88) == be32_bytes(p.size)
            &&& e.subrange(120, 122) == le16_bytes(p.total_volumes)
            &&& e.subrange(122, 124) == be16_bytes(p.total_volumes)
            &&& e.subrange(124, 126) == le16_bytes(p.this_volume)
            &&& e.subrange(126, 128) == be16_bytes(p.this_volume)
            &&& e.subrange(128, 130) == le16_bytes(p.block_size)
            &&& e.subrange(130, 132) == be16_bytes(p.block_size)
            &&& e.subrange(132, 136) == le32_bytes(p.path_table_size)
            &&& e.subrange(136, 140) == be32_bytes(p.path_table_size)
            &&& e.subrange(140, 144) == le32_bytes(p.path_table_location)
            &&& e.subrange(144, 148) == le32_bytes(p.optional_path_table_location)
            &&& e.subrange(148, 152) == be32_bytes(p.path_table_location)
            &&& e.subrange(152, 156) == be32_bytes(p.optional_path_table_location)
        }),
{
    broadcast use lemma_put_len, lemma_put_frame, lemma_put_here;

}

/// Writing the rest of a primary descriptor leaves its number fields as they were.
proof fn lemma_primary_tail_keeps(e: Seq<u8>, p: PrimaryVolume)
    requires
        e.len() == 2048,
        primary_writable(p),
    ensures
        primary_tail(e, p).len() == 2048,
        primary_tail(e, p).subrange(80, 156) == e.subrange(80, 156),
{
    broadcast use lemma_put_len, lemma_put_frame, lemma_update_frame;

    crate::iso9660::lemma_datetime_image_len(p.creation);
    crate::iso9660::lemma_datetime_image_len(p.modification);
    crate::iso9660::lemma_datetime_image_len(p.expiration);
    crate::iso9660::lemma_datetime_image_len(p.beginning);
    assert(record_image(p.root).len() <= 34);
    assert(padded(p.volume_set_id.0@, 128).len() == 128);
    assert(padded(p.publisher.0@, 128).len() == 128);
    assert(padded(p.data_preparer.0@, 128).len() == 128);
    assert(padded(p.application.0@, 128).len() == 128);
    assert(padded(p.copyright_file.0@, 37).len() == 37);
    assert(padded(p.abstract_file.0@, 37).len() == 37);
    assert(padded(p.bibliographic_file.0@, 37).len() == 37);
    let f1 = put(e, 156, record_image(p.root));
    let f2 = put(f1, 190, padded(p.volume_set_id.0@, 128));
    let f3 = put(f2, 318, padded(p.publisher.0@, 128));
    let f4 = put(f3, 446, padded(p.data_preparer.0@, 128));
    let f = put(f4, 574, padded(p.application.0@, 128));
    assert(f.subrange(80, 156) == e.subrange(80, 156));
    let g1 = put(f, 702, padded(p.copyright_file.0@, 37));
    let g2 = put(g1, 739, padded(p.abstract_file.0@, 37));
    let g = put(g2, 776, padded(p.bibliographic_file.0@, 37));
    assert(g.subrange(80, 156) == e.subrange(80, 156));
    let h1 = put(g, 813, datetime_image(p.creation));
    let h2 = put(h1, 830, datetime_image(p.modification));
    let h3 = put(h2, 847, datetime_image(p.expiration));
    let h = put(h3, 864, datetime_image(p.beginning));
    assert(h.subrange(80, 156) == e.subrange(80, 156));
    let k = h.update(881, 1u8).update(882, 0u8);
    assert(k.subrange(80, 156) == e.subrange(80, 156));
    assert(primary_tail(e, p) == put(k, 883, p.application_specific@));
}
/// Reading a primary descriptor gives back the numbers that writing one put there: a volume
/// read from bytes whose number fields (bytes 80 to 156) are those of the descriptor written
/// for `p` has the size, counts, block size and path table places of `p`.
pub proof fn lemma_primary_numbers_read_back(
    d: Seq<u8>,
    p: PrimaryVolume,
    bytes: Seq<u8>,
    q: PrimaryVolume,
)
    requires
        d.len() == 2048,
        primary_writable(p),
        bytes.len() == 2048,
        bytes.subrange(80, 156) == primary_written(d, p).subrange(80, 156),
        primary_parsed(q, bytes),
    ensures
        q.size == p.size,
        q.total_volumes == p.total_volumes,
        q.this_volume == p.this_volume,
        q.block_size == p.block_size,
        q.path_table_size == p.path_table_size,
        q.path_table_location == p.path_table_location,
        q.optional_path_table_location == p.optional_path_table_location,
{
    reveal(primary_fields_parsed);
    lemma_primary_both_endian_fields(d, p);
    let w = primary_written(d, p);
    assert forall|i: int| 80 <= i < 156 implies #[trigger] bytes[i] == w[i] by {
        assert(bytes.subrange(80, 156)[i - 80] == w.subrange(80, 156)[i - 80]);
    }
}

} // verus!
