//! FAT16 directory entries: the packed 32-byte on-disk record, 8.3 short
//! file names, attribute flags and the packed timestamps.

use vstd::prelude::*;

use chrono::LocalResult;
use chrono::TimeZone;
use chrono::Utc;

verus! {

/// File attribute flags of a directory entry (one byte on disk).
#[derive(Clone, Copy, PartialEq, Eq, Structural, Debug, Hash)]
pub struct Attributes {
    pub bits: u8,
}

/// Bit for a read-only file.
pub const ATTR_READ_ONLY: u8 = 0x01;
/// Bit for a hidden file.
pub const ATTR_HIDDEN: u8 = 0x02;
/// Bit for a system file.
pub const ATTR_SYSTEM: u8 = 0x04;
/// Bit for the volume label entry.
pub const ATTR_VOLUME_ID: u8 = 0x08;
/// Bit for a directory.
pub const ATTR_DIRECTORY: u8 = 0x10;
/// Bit for the archive flag.
pub const ATTR_ARCHIVE: u8 = 0x20;
/// Mask marking a long-file-name entry.
pub const ATTR_LFN: u8 = 0x0f;
/// Every defined attribute bit.
pub const ATTR_ALL: u8 = ATTR_READ_ONLY | ATTR_HIDDEN | ATTR_SYSTEM | ATTR_VOLUME_ID
    | ATTR_DIRECTORY | ATTR_ARCHIVE;

impl Attributes {
    /// The attribute byte as stored, when every set bit is defined; unknown
    /// bits make the entry read as having no attributes.
    pub open spec fn spec_from_bits(bits: u8) -> Attributes {
        if bits & ATTR_ALL == bits {
            Attributes { bits }
        } else {
            Attributes { bits: 0 }
        }
    }

    /// Decode the attribute byte; unknown bits clear the whole set, as the
    /// flag decoder's callers fall back to an empty set.
    pub fn from_bits(bits: u8) -> (r: Attributes)
        ensures
            r == Attributes::spec_from_bits(bits),
    {
        if bits & ATTR_ALL == bits {
            Attributes { bits }
        } else {
            Attributes { bits: 0 }
        }
    }

    /// Whether every bit of `mask` is set.
    pub fn contains(&self, mask: u8) -> (r: bool)
        ensures
            r == (self.bits & mask == mask),
    {
        self.bits & mask == mask
    }
}

/// A timestamp as the filesystem stores it, in calendar fields.
#[derive(Clone, Copy, PartialEq, Eq, Structural, Debug)]
pub struct FsTime {
    pub year: i32,
    pub month: u8,
    pub day: u8,
    pub hour: u8,
    pub minute: u8,
    pub second: u8,
}

/// Days in a month of the proleptic Gregorian calendar.
pub open spec fn days_in_month(year: int, month: int) -> int {
    if month == 1 || month == 3 || month == 5 || month == 7 || month == 8 || month == 10 || month
        == 12 {
        31
    } else if month == 4 || month == 6 || month == 9 || month == 11 {
        30
    } else if month == 2 {
        if year % 4 == 0 && (year % 100 != 0 || year % 400 == 0) {
            29
        } else {
            28
        }
    } else {
        0
    }
}

/// A valid Gregorian calendar date and time of day.
pub open spec fn fat_datetime_valid(
    year: int,
    month: int,
    day: int,
    hour: int,
    minute: int,
    second: int,
) -> bool {
    &&& 1 <= month <= 12
    &&& 1 <= day <= days_in_month(year, month)
    &&& 0 <= hour < 24
    &&& 0 <= minute < 60
    &&& 0 <= second < 60
}

/// Relies on chrono's `TimeZone::with_ymd_and_hms` for `Utc`: it returns a
/// single result exactly when the fields form a valid Gregorian date (the
/// year range here is far inside chrono's) and a valid time of day without a
/// leap second.
#[verifier::external_body]
fn utc_ymd_hms_is_single(year: i32, month: u32, day: u32, hour: u32, minute: u32, second: u32)
    -> (r: bool)
    requires
        1970 <= year <= 2107,
    ensures
        r == fat_datetime_valid(
            year as int,
            month as int,
            day as int,
            hour as int,
            minute as int,
            second as int,
        ),
{
    match Utc.with_ymd_and_hms(year, month, day, hour, minute, second) {
        LocalResult::Single(_) => true,
        _ => false,
    }
}

/// The timestamp a packed FAT date-time word denotes: its bit fields when
/// they form a valid calendar date, the epoch otherwise.
pub open spec fn fstime_of(time: u32) -> FsTime {
    let year = ((time >> 25) & 0x7F) + 1980;
    let month = (time >> 21) & 0x0F;
    let day = (time >> 16) & 0x1F;
    let hour = (time >> 11) & 0x1F;
    let minute = (time >> 5) & 0x3F;
    let second = (time & 0x1F) * 2;
    if fat_datetime_valid(
        year as int,
        month as int,
        day as int,
        hour as int,
        minute as int,
        second as int,
    ) {
        FsTime {
            year: year as i32,
            month: month as u8,
            day: day as u8,
            hour: hour as u8,
            minute: minute as u8,
            second: second as u8,
        }
    } else {
        FsTime { year: 1970, month: 1, day: 1, hour: 0, minute: 0, second: 0 }
    }
}

/// Unpack a FAT date-time word.
pub fn prase_datetime(time: u32) -> (r: FsTime)
    ensures
        r == fstime_of(time),
{
    proof {
        assert((time >> 25) & 0x7F < 0x80 && (time >> 21) & 0x0F < 0x10 && (time >> 16) & 0x1F
            < 0x20 && (time >> 11) & 0x1F < 0x20 && (time >> 5) & 0x3F < 0x40 && (time & 0x1F)
            < 0x20) by (bit_vector);
    }
    let year = ((time >> 25) & 0x7F) + 1980;
    let month = (time >> 21) & 0x0F;
    let day = (time >> 16) & 0x1F;
    let hour = (time >> 11) & 0x1F;
    let minute = (time >> 5) & 0x3F;
    let second = (time & 0x1F) * 2;
    if utc_ymd_hms_is_single(year as i32, month, day, hour, minute, second) {
        FsTime {
            year: year as i32,
            month: month as u8,
            day: day as u8,
            hour: hour as u8,
            minute: minute as u8,
            second: second as u8,
        }
    } else {
        FsTime { year: 1970, month: 1, day: 1, hour: 0, minute: 0, second: 0 }
    }
}

/// A cluster number.
#[derive(Clone, Copy, PartialEq, Eq, Structural, Debug)]
pub struct Cluster(pub u32);

/// An 8.3 short file name: the padded base name and extension bytes as
/// stored on disk.
#[derive(Clone, PartialEq, Eq, Debug)]
pub struct ShortFileName {
    pub name: Vec<u8>,
    pub ext: Vec<u8>,
}

/// ASCII lower-case letters fold to upper case; every other byte stays.
pub open spec fn upper_byte(b: u8) -> u8 {
    if 0x61 <= b <= 0x7A {
        (b - 0x20) as u8
    } else {
        b
    }
}

/// The bytes with ASCII letters folded to upper case.
pub open spec fn upper_bytes(s: Seq<u8>) -> Seq<u8> {
    Seq::new(s.len(), |i: int| upper_byte(s[i]))
}

/// Where the base name ends: the index of the last dot, or the whole length
/// when there is none.
pub open spec fn base_end(s: Seq<u8>) -> int
    decreases s.len(),
{
    if s.len() == 0 {
        0
    } else if s.last() == 0x2E {
        s.len() - 1
    } else if base_end(s.drop_last()) == s.len() - 1 {
        s.len() as int
    } else {
        base_end(s.drop_last())
    }
}

/// A byte the 8.3 base name may not hold: the control range and the
/// format's reserved punctuation.
pub open spec fn forbidden_8_3(b: u8) -> bool {
    ||| b < 0x20
    ||| b == 0x22
    ||| b == 0x2A
    ||| b == 0x2B
    ||| b == 0x2C
    ||| b == 0x2F
    ||| 0x3A <= b <= 0x3F
    ||| 0x5B <= b <= 0x5D
    ||| b == 0x7C
}

/// `n` padding spaces.
pub open spec fn spaces(n: int) -> Seq<u8> {
    Seq::new(n as nat, |i: int| 0x20u8)
}

/// With the last dot at `c` (nothing after it is a dot), the base ends at
/// `c`.
proof fn lemma_base_end_at(s: Seq<u8>, c: int)
    requires
        0 <= c < s.len(),
        s[c] == 0x2E,
        forall|t: int| c < t < s.len() ==> s[t] != 0x2E,
    ensures
        base_end(s) == c,
    decreases s.len(),
{
    if c == s.len() - 1 {
    } else {
        lemma_base_end_at(s.drop_last(), c);
    }
}

/// Without any dot, the base is the whole name.
proof fn lemma_base_end_none(s: Seq<u8>)
    requires
        forall|t: int| 0 <= t < s.len() ==> s[t] != 0x2E,
    ensures
        base_end(s) == s.len(),
    decreases s.len(),
{
    if s.len() > 0 {
        lemma_base_end_none(s.drop_last());
    }
}

impl ShortFileName {
    pub open spec fn wf(self) -> bool {
        self.name@.len() == 8 && self.ext@.len() == 3
    }

    /// Split the first 11 bytes of a raw entry into name and extension.
    pub fn new(buf: &Vec<u8>) -> (r: ShortFileName)
        requires
            buf@.len() >= 11,
        ensures
            r.name@ == buf@.subrange(0, 8),
            r.ext@ == buf@.subrange(8, 11),
            r.wf(),
    {
        let mut name: Vec<u8> = Vec::new();
        let mut i: usize = 0;
        while i < 8
            invariant
                buf@.len() >= 11,
                i <= 8,
                name@ == buf@.subrange(0, i as int),
            decreases 8 - i,
        {
            name.push(buf[i]);
            proof {
                assert(buf@.subrange(0, i as int).push(buf@[i as int]) =~= buf@.subrange(
                    0,
                    i + 1,
                ));
            }
            i = i + 1;
        }
        let mut ext: Vec<u8> = Vec::new();
        let mut j: usize = 8;
        while j < 11
            invariant
                buf@.len() >= 11,
                8 <= j <= 11,
                ext@ == buf@.subrange(8, j as int),
            decreases 11 - j,
        {
            ext.push(buf[j]);
            proof {
                assert(buf@.subrange(8, j as int).push(buf@[j as int]) =~= buf@.subrange(
                    8,
                    j + 1,
                ));
            }
            j = j + 1;
        }
        ShortFileName { name, ext }
    }

    /// The stored base name bytes.
    pub fn basename(&self) -> (r: &Vec<u8>)
        ensures
            r == &self.name,
    {
        &self.name
    }

    /// The stored extension bytes.
    pub fn extension(&self) -> (r: &Vec<u8>)
        ensures
            r == &self.ext,
    {
        &self.ext
    }

    /// An end-of-directory marker.
    pub fn is_eod(&self) -> (r: bool)
        requires
            self.wf(),
        ensures
            r == (self.name@[0] == 0 && self.ext@[0] == 0),
    {
        self.name[0] == 0x00 && self.ext[0] == 0x00
    }

    /// A deleted (unused) entry.
    pub fn is_unused(&self) -> (r: bool)
        requires
            self.wf(),
        ensures
            r == (self.name@[0] == 0xE5),
    {
        self.name[0] == 0xE5
    }

    /// Byte-for-byte equality with another short name.
    pub fn matches(&self, sfn: &ShortFileName) -> (r: bool)
        ensures
            r == (self.name@ =~= sfn.name@ && self.ext@ =~= sfn.ext@),
    {
        bytes_eq(&self.name, &sfn.name) && bytes_eq(&self.ext, &sfn.ext)
    }

    /// Parse a written name into its stored 8.3 form: letters fold to upper
    /// case, the part after the last dot becomes the extension, and both
    /// parts are space-padded. Empty names, names holding a space, parts
    /// over their length, and forbidden bytes in the base are each refused
    /// with their own error.
    pub fn parse(name: &Vec<u8>) -> (r: Result<ShortFileName, crate::fserror::FsError>)
        ensures
            ({
                let u = upper_bytes(name@);
                let cut = base_end(u);
                let base = u.take(cut);
                let ext = if cut < u.len() {
                    u.skip(cut + 1)
                } else {
                    Seq::<u8>::empty()
                };
                if name@.len() == 0 {
                    r == Err::<ShortFileName, crate::fserror::FsError>(
                        crate::fserror::FsError::BadFilename(
                            crate::fserror::FilenameError::FilenameEmpty,
                        ),
                    )
                } else if name@.contains(0x20) {
                    r == Err::<ShortFileName, crate::fserror::FsError>(
                        crate::fserror::FsError::BadFilename(
                            crate::fserror::FilenameError::MisplacedPeriod,
                        ),
                    )
                } else if base.len() > 8 || ext.len() > 3 {
                    r == Err::<ShortFileName, crate::fserror::FsError>(
                        crate::fserror::FsError::BadFilename(
                            crate::fserror::FilenameError::NameTooLong,
                        ),
                    )
                } else if exists|t: int| 0 <= t < base.len() && forbidden_8_3(#[trigger] base[t]) {
                    r == Err::<ShortFileName, crate::fserror::FsError>(
                        crate::fserror::FsError::BadFilename(
                            crate::fserror::FilenameError::InvalidCharacter,
                        ),
                    )
                } else {
                    &&& r is Ok
                    &&& r->Ok_0.wf()
                    &&& r->Ok_0.name@ == base + spaces(8 - base.len())
                    &&& r->Ok_0.ext@ == ext + spaces(3 - ext.len())
                }
            }),
    {
        if name.len() == 0 {
            return Err(
                crate::fserror::FsError::BadFilename(
                    crate::fserror::FilenameError::FilenameEmpty,
                ),
            );
        }
        let mut i: usize = 0;
        while i < name.len()
            invariant
                i <= name@.len(),
                forall|t: int| 0 <= t < i ==> name@[t] != 0x20,
            decreases name@.len() - i,
        {
            if name[i] == 0x20 {
                return Err(
                    crate::fserror::FsError::BadFilename(
                        crate::fserror::FilenameError::MisplacedPeriod,
                    ),
                );
            }
            i = i + 1;
        }
        proof {
            assert(!name@.contains(0x20)) by {
                if name@.contains(0x20) {
                    let t = choose|t: int| 0 <= t < name@.len() && name@[t] == 0x20;
                }
            }
        }
        let mut up: Vec<u8> = Vec::new();
        let mut j: usize = 0;
        while j < name.len()
            invariant
                j <= name@.len(),
                up@ == upper_bytes(name@).take(j as int),
            decreases name@.len() - j,
        {
            let b = name[j];
            let c: u8 = if 0x61 <= b && b <= 0x7A {
                b - 0x20
            } else {
                b
            };
            proof {
                assert(upper_bytes(name@).take(j as int).push(upper_byte(name@[j as int]))
                    =~= upper_bytes(name@).take(j + 1));
            }
            up.push(c);
            j = j + 1;
        }
        proof {
            assert(up@ =~= upper_bytes(name@));
        }
        let mut cut: usize = up.len();
        let mut k: usize = 0;
        while k < up.len()
            invariant
                k <= up@.len(),
                cut == up@.len() || (cut < k && up@[cut as int] == 0x2E),
                forall|t: int| (if cut < k { cut < t } else { 0 <= t }) && t < k ==> up@[t] != 0x2E,
            decreases up@.len() - k,
        {
            if up[k] == 0x2E {
                cut = k;
            }
            k = k + 1;
        }
        proof {
            if cut < up@.len() {
                lemma_base_end_at(up@, cut as int);
            } else {
                lemma_base_end_none(up@);
            }
        }
        let base_len: usize = cut;
        let ext_len: usize = if cut < up.len() {
            up.len() - cut - 1
        } else {
            0
        };
        if base_len > 8 || ext_len > 3 {
            return Err(
                crate::fserror::FsError::BadFilename(crate::fserror::FilenameError::NameTooLong),
            );
        }
        let mut t: usize = 0;
        while t < base_len
            invariant
                t <= base_len,
                base_len <= up@.len(),
                base_len <= 8,
                ext_len <= 3,
                name@.len() > 0,
                !name@.contains(0x20),
                up@ == upper_bytes(name@),
                base_end(up@) == base_len as int,
                ext_len as int == (if (base_len as int) < up@.len() {
                    up@.len() - base_len - 1
                } else {
                    0
                }),
                forall|x: int| 0 <= x < t ==> !forbidden_8_3(#[trigger] up@[x]),
            decreases base_len - t,
        {
            let b = up[t];
            if b < 0x20 || b == 0x22 || b == 0x2A || b == 0x2B || b == 0x2C || b == 0x2F || (0x3A
                <= b && b <= 0x3F) || (0x5B <= b && b <= 0x5D) || b == 0x7C {
                proof {
                    let base = upper_bytes(name@).take(base_len as int);
                    assert(base[t as int] == up@[t as int]);
                    assert(forbidden_8_3(base[t as int]));
                }
                return Err(
                    crate::fserror::FsError::BadFilename(
                        crate::fserror::FilenameError::InvalidCharacter,
                    ),
                );
            }
            t = t + 1;
        }
        proof {
            let base = upper_bytes(name@).take(cut as int);
            assert(!(exists|x: int| 0 <= x < base.len() && forbidden_8_3(#[trigger] base[x])))
                by {
                if exists|x: int| 0 <= x < base.len() && forbidden_8_3(#[trigger] base[x]) {
                    let x = choose|x: int| 0 <= x < base.len() && forbidden_8_3(#[trigger] base[x]);
                    assert(up@[x] == base[x]);
                }
            }
        }
        let mut nm: Vec<u8> = Vec::new();
        let mut a: usize = 0;
        while a < base_len
            invariant
                a <= base_len,
                base_len <= up@.len(),
                nm@ == up@.take(base_len as int).take(a as int),
            decreases base_len - a,
        {
            proof {
                let base = up@.take(base_len as int);
                assert(base.take(a as int).push(base[a as int]) =~= base.take(a + 1));
            }
            nm.push(up[a]);
            a = a + 1;
        }
        proof {
            assert(up@.take(base_len as int).take(base_len as int) =~= up@.take(
                base_len as int,
            ));
        }
        while nm.len() < 8
            invariant
                base_len <= nm@.len() <= 8,
                base_len <= up@.len(),
                nm@ == up@.take(base_len as int) + spaces(nm@.len() - base_len),
            decreases 8 - nm@.len(),
        {
            proof {
                let base = up@.take(base_len as int);
                assert((base + spaces(nm@.len() - base_len)).push(0x20) =~= base + spaces(
                    nm@.len() + 1 - base_len,
                ));
            }
            nm.push(0x20);
        }
        let mut ex: Vec<u8> = Vec::new();
        let mut e: usize = 0;
        let up_len: usize = up.len();
        let ghost ext = if (cut as int) < up@.len() {
            up@.skip(cut as int + 1)
        } else {
            Seq::<u8>::empty()
        };
        while e < ext_len
            invariant
                e <= ext_len,
                ext_len <= 3,
                up@.len() == up_len,
                cut + 1 + ext_len <= up_len || ext_len == 0,
                ext_len == ext.len(),
                ext == (if (cut as int) < up@.len() {
                    up@.skip(cut as int + 1)
                } else {
                    Seq::<u8>::empty()
                }),
                ex@ == ext.take(e as int),
            decreases ext_len - e,
        {
            proof {
                assert(ext[e as int] == up@[cut + 1 + e]);
                assert(ext.take(e as int).push(ext[e as int]) =~= ext.take(e + 1));
            }
            ex.push(up[cut + 1 + e]);
            e = e + 1;
        }
        proof {
            assert(ext.take(ext_len as int) =~= ext);
        }
        while ex.len() < 3
            invariant
                ext.len() <= ex@.len() <= 3,
                ex@ == ext + spaces(ex@.len() - ext.len()),
            decreases 3 - ex@.len(),
        {
            proof {
                assert((ext + spaces(ex@.len() - ext.len())).push(0x20) =~= ext + spaces(
                    ex@.len() + 1 - ext.len(),
                ));
            }
            ex.push(0x20);
        }
        Ok(ShortFileName { name: nm, ext: ex })
    }
}

/// Byte-sequence equality.
fn bytes_eq(a: &Vec<u8>, b: &Vec<u8>) -> (r: bool)
    ensures
        r == (a@ =~= b@),
{
    if a.len() != b.len() {
        return false;
    }
    let mut i: usize = 0;
    while i < a.len()
        invariant
            a@.len() == b@.len(),
            i <= a@.len(),
            forall|j: int| 0 <= j < i ==> a@[j] == b@[j],
        decreases a@.len() - i,
    {
        if a[i] != b[i] {
            return false;
        }
        i = i + 1;
    }
    true
}

/// Whether an entry names a directory or a plain file.
#[derive(Clone, Copy, PartialEq, Eq, Structural, Debug)]
pub enum FileType {
    Directory,
    File,
}

/// What a caller learns about a file without opening it.
pub struct Metadata {
    pub entry_type: FileType,
    pub name: Vec<u8>,
    pub len: usize,
    pub created: Option<FsTime>,
    pub accessed: Option<FsTime>,
    pub modified: Option<FsTime>,
}

/// One parsed 32-byte directory entry.
#[derive(Clone, PartialEq, Eq, Debug)]
pub struct DirEntry {
    pub filename: ShortFileName,
    pub modified_time: FsTime,
    pub created_time: FsTime,
    pub accessed_time: FsTime,
    pub cluster: Cluster,
    pub attributes: Attributes,
    pub size: u32,
}

/// A little-endian 32-bit word from four bytes.
pub open spec fn spec_u32_le(b0: u8, b1: u8, b2: u8, b3: u8) -> u32 {
    (b0 + b1 * 0x100 + b2 * 0x1_0000 + b3 * 0x100_0000) as u32
}

fn u32_le(b0: u8, b1: u8, b2: u8, b3: u8) -> (r: u32)
    ensures
        r == spec_u32_le(b0, b1, b2, b3),
{
    (b0 as u32) + (b1 as u32) * 0x100 + (b2 as u32) * 0x1_0000 + (b3 as u32) * 0x100_0000
}

/// Bytes of one on-disk directory entry.
pub const DIR_ENTRY_LEN: usize = 0x20;

/// The fixed placeholder shown for an entry without a usable short name.
pub open spec fn unknown_name() -> Seq<u8> {
    seq![0x75u8, 0x6Eu8, 0x6Bu8, 0x6Eu8, 0x6Fu8, 0x77u8, 0x6Eu8]
}

/// The bytes with their trailing padding spaces removed.
pub open spec fn trim_spaces(s: Seq<u8>) -> Seq<u8>
    decreases s.len(),
{
    if s.len() > 0 && s.last() == 0x20 {
        trim_spaces(s.drop_last())
    } else {
        s
    }
}

/// The name a directory listing shows for an entry: the trimmed base, then
/// a dot and the trimmed extension when one is stored; the placeholder for
/// deleted entries, the end marker and long-name entries.
pub open spec fn display_name(e: DirEntry) -> Seq<u8> {
    if e.filename.name@[0] == 0xE5 || (e.filename.name@[0] == 0 && e.filename.ext@[0] == 0) || (
    e.attributes.bits & ATTR_LFN == ATTR_LFN) {
        unknown_name()
    } else if e.filename.ext@[0] == 0x20 {
        trim_spaces(e.filename.name@)
    } else {
        trim_spaces(e.filename.name@).push(0x2E) + trim_spaces(e.filename.ext@)
    }
}

/// When everything from `n` on is a space and `n` ends on a non-space,
/// trimming keeps exactly the first `n` bytes.
proof fn lemma_trim_is_take(s: Seq<u8>, n: int)
    requires
        0 <= n <= s.len(),
        forall|t: int| n <= t < s.len() ==> s[t] == 0x20,
        n > 0 ==> s[n - 1] != 0x20,
    ensures
        trim_spaces(s) == s.take(n),
    decreases s.len(),
{
    if s.len() == n {
        assert(s.take(n) =~= s);
    } else {
        assert(s.last() == 0x20);
        lemma_trim_is_take(s.drop_last(), n);
        assert(s.drop_last().take(n) =~= s.take(n));
    }
}

impl DirEntry {
    pub open spec fn wf(self) -> bool {
        self.filename.wf()
    }

    /// Decode a raw 32-byte entry: padded 8.3 name, attribute byte, packed
    /// timestamps, the cluster split across two fields, and the byte size.
    pub fn parse(data: &Vec<u8>) -> (r: Result<DirEntry, crate::fserror::FsError>)
        requires
            data@.len() == DIR_ENTRY_LEN,
        ensures
            r is Ok,
            ({
                let e = r->Ok_0;
                &&& e.wf()
                &&& e.filename.name@ == data@.subrange(0, 8)
                &&& e.filename.ext@ == data@.subrange(8, 11)
                &&& e.attributes == Attributes::spec_from_bits(data@[11])
                &&& e.created_time == fstime_of(
                    spec_u32_le(data@[14], data@[15], data@[16], data@[17]),
                )
                &&& e.accessed_time == fstime_of(spec_u32_le(0, 0, data@[18], data@[19]))
                &&& e.modified_time == fstime_of(
                    spec_u32_le(data@[22], data@[23], data@[24], data@[25]),
                )
                &&& e.cluster == Cluster(
                    spec_u32_le(data@[26], data@[27], data@[20], data@[21]),
                )
                &&& e.size == spec_u32_le(data@[28], data@[29], data@[30], data@[31])
            }),
    {
        let filename = ShortFileName::new(data);
        let created_time = prase_datetime(u32_le(data[14], data[15], data[16], data[17]));
        let accessed_time = prase_datetime(u32_le(0, 0, data[18], data[19]));
        let modified_time = prase_datetime(u32_le(data[22], data[23], data[24], data[25]));
        let attributes = Attributes::from_bits(data[11]);
        let cluster = u32_le(data[26], data[27], data[20], data[21]);
        let size = u32_le(data[28], data[29], data[30], data[31]);
        Ok(
            DirEntry {
                filename,
                modified_time,
                created_time,
                accessed_time,
                cluster: Cluster(cluster),
                attributes,
                size,
            },
        )
    }

    /// A live entry: neither deleted nor the end-of-directory marker.
    pub fn is_valid(&self) -> (r: bool)
        requires
            self.wf(),
        ensures
            r == (!(self.filename.name@[0] == 0xE5) && !(self.filename.name@[0] == 0
                && self.filename.ext@[0] == 0)),
    {
        !self.filename.is_unused() && !self.filename.is_eod()
    }

    /// A long-file-name continuation entry.
    pub fn is_long_name(&self) -> (r: bool)
        ensures
            r == (self.attributes.bits & ATTR_LFN == ATTR_LFN),
    {
        self.attributes.contains(ATTR_LFN)
    }

    /// Whether this entry names a directory.
    pub fn is_directory(&self) -> (r: bool)
        ensures
            r == (self.attributes.bits & ATTR_DIRECTORY == ATTR_DIRECTORY),
    {
        self.attributes.contains(ATTR_DIRECTORY)
    }

    /// Shown by a directory listing: live, short-named and not hidden.
    pub fn is_displayable(&self) -> (r: bool)
        requires
            self.wf(),
        ensures
            r == (!(self.attributes.bits & ATTR_HIDDEN == ATTR_HIDDEN) && (!(
            self.filename.name@[0] == 0xE5) && !(self.filename.name@[0] == 0
                && self.filename.ext@[0] == 0)) && !(self.attributes.bits & ATTR_LFN
                == ATTR_LFN)),
    {
        !self.attributes.contains(ATTR_HIDDEN) && self.is_valid() && !self.is_long_name()
    }

    /// The display name: the trimmed base, then a dot and the trimmed
    /// extension when one is stored. Deleted entries, the end marker and
    /// long-name entries have no usable short name and read as the fixed
    /// placeholder.
    pub fn filename(&self) -> (r: Vec<u8>)
        requires
            self.wf(),
        ensures
            r@ == display_name(*self),
    {
        let mut out: Vec<u8> = Vec::new();
        let valid = self.is_valid();
        let long = self.is_long_name();
        if !valid || long {
            out.push(0x75);
            out.push(0x6E);
            out.push(0x6B);
            out.push(0x6E);
            out.push(0x6F);
            out.push(0x77);
            out.push(0x6E);
            proof {
                assert(out@ =~= unknown_name());
            }
            return out;
        }
        let mut base_len: usize = 8;
        while base_len > 0 && self.filename.name[base_len - 1] == 0x20
            invariant
                self.wf(),
                base_len <= 8,
                forall|t: int| base_len <= t < 8 ==> self.filename.name@[t] == 0x20,
            decreases base_len,
        {
            base_len = base_len - 1;
        }
        proof {
            lemma_trim_is_take(self.filename.name@, base_len as int);
        }
        let mut i: usize = 0;
        while i < base_len
            invariant
                self.wf(),
                base_len <= 8,
                i <= base_len,
                out@ == self.filename.name@.take(base_len as int).take(i as int),
            decreases base_len - i,
        {
            proof {
                let b = self.filename.name@.take(base_len as int);
                assert(b.take(i as int).push(b[i as int]) =~= b.take(i + 1));
            }
            out.push(self.filename.name[i]);
            i = i + 1;
        }
        proof {
            let b = self.filename.name@.take(base_len as int);
            assert(b.take(base_len as int) =~= b);
        }
        if self.filename.ext[0] != 0x20 {
            out.push(0x2E);
            let ghost stem = trim_spaces(self.filename.name@).push(0x2E);
            proof {
                assert(out@ =~= stem);
            }
            let mut ext_len: usize = 3;
            while ext_len > 0 && self.filename.ext[ext_len - 1] == 0x20
                invariant
                    self.wf(),
                    ext_len <= 3,
                    forall|t: int| ext_len <= t < 3 ==> self.filename.ext@[t] == 0x20,
                decreases ext_len,
            {
                ext_len = ext_len - 1;
            }
            proof {
                lemma_trim_is_take(self.filename.ext@, ext_len as int);
            }
            let mut j: usize = 0;
            while j < ext_len
                invariant
                    self.wf(),
                    ext_len <= 3,
                    j <= ext_len,
                    out@ == stem + self.filename.ext@.take(ext_len as int).take(j as int),
                decreases ext_len - j,
            {
                proof {
                    let e = self.filename.ext@.take(ext_len as int);
                    assert(stem + e.take(j as int).push(e[j as int]) =~= stem + e.take(j + 1));
                }
                out.push(self.filename.ext[j]);
                j = j + 1;
            }
            proof {
                let e = self.filename.ext@.take(ext_len as int);
                assert(e.take(ext_len as int) =~= e);
                assert(stem + trim_spaces(self.filename.ext@) =~= out@);
            }
        }
        out
    }

    /// The metadata a listing reports for this entry.
    pub fn as_meta(&self) -> (r: Metadata)
        requires
            self.wf(),
        ensures
            r.entry_type == (if self.attributes.bits & ATTR_DIRECTORY == ATTR_DIRECTORY {
                FileType::Directory
            } else {
                FileType::File
            }),
            r.len == self.size,
            r.created == Some(self.created_time),
            r.accessed == Some(self.accessed_time),
            r.modified == Some(self.modified_time),
    {
        let entry_type = if self.is_directory() {
            FileType::Directory
        } else {
            FileType::File
        };
        Metadata {
            entry_type,
            name: self.filename(),
            len: self.size as usize,
            created: Some(self.created_time),
            accessed: Some(self.accessed_time),
            modified: Some(self.modified_time),
        }
    }
}

} // verus!
