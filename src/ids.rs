//! File identifiers: random 128-bit values laid out as version-4 UUIDs, and
//! the file names derived from them.
use vstd::prelude::*;

verus! {

/// Bits of a UUID that hold its version (the high nibble of byte 6).
pub const VERSION_MASK: u128 = 0x0000_0000_0000_f000_0000_0000_0000_0000;

/// The version bits of a random (version 4) UUID.
pub const VERSION_4: u128 = 0x0000_0000_0000_4000_0000_0000_0000_0000;

/// Bits of a UUID that hold its variant (the two high bits of byte 8).
pub const VARIANT_MASK: u128 = 0x0000_0000_0000_0000_c000_0000_0000_0000;

/// The variant bits of an RFC 4122 UUID.
pub const VARIANT_RFC4122: u128 = 0x0000_0000_0000_0000_8000_0000_0000_0000;

/// The version-4 UUID made of the random bits `bits`: its version and
/// variant bits are set, all others are taken from `bits`.
pub open spec fn uuid_of_random(bits: u128) -> u128 {
    (bits & !(VERSION_MASK | VARIANT_MASK)) | VERSION_4 | VARIANT_RFC4122
}

/// Relies on `rand::random`, drawn from the thread-local generator that
/// `rand` seeds from the operating system; nothing is known of the value.
#[verifier::external_body]
fn random_bits() -> (r: u128) {
    rand::random::<u128>()
}

/// Lays the random bits `bits` out as a version-4 UUID, as
/// `uuid::Builder::from_random_bytes` does with the same bits read big-endian.
pub fn uuid_from_random_bits(bits: u128) -> (r: u128)
    ensures
        r == uuid_of_random(bits),
        r & VERSION_MASK == VERSION_4,
        r & VARIANT_MASK == VARIANT_RFC4122,
        r & !(VERSION_MASK | VARIANT_MASK) == bits & !(VERSION_MASK | VARIANT_MASK),
{
    let r = (bits & !(VERSION_MASK | VARIANT_MASK)) | VERSION_4 | VARIANT_RFC4122;
    assert(r & 0x0000_0000_0000_f000_0000_0000_0000_0000u128
        == 0x0000_0000_0000_4000_0000_0000_0000_0000u128) by (bit_vector)
        requires
            r == (bits & !(0x0000_0000_0000_f000_0000_0000_0000_0000u128
                | 0x0000_0000_0000_0000_c000_0000_0000_0000u128))
                | 0x0000_0000_0000_4000_0000_0000_0000_0000u128
                | 0x0000_0000_0000_0000_8000_0000_0000_0000u128,
    ;
    assert(r & 0x0000_0000_0000_0000_c000_0000_0000_0000u128
        == 0x0000_0000_0000_0000_8000_0000_0000_0000u128) by (bit_vector)
        requires
            r == (bits & !(0x0000_0000_0000_f000_0000_0000_0000_0000u128
                | 0x0000_0000_0000_0000_c000_0000_0000_0000u128))
                | 0x0000_0000_0000_4000_0000_0000_0000_0000u128
                | 0x0000_0000_0000_0000_8000_0000_0000_0000u128,
    ;
    assert(r & !(0x0000_0000_0000_f000_0000_0000_0000_0000u128
        | 0x0000_0000_0000_0000_c000_0000_0000_0000u128) == bits & !(
    0x0000_0000_0000_f000_0000_0000_0000_0000u128
        | 0x0000_0000_0000_0000_c000_0000_0000_0000u128)) by (bit_vector)
        requires
            r == (bits & !(0x0000_0000_0000_f000_0000_0000_0000_0000u128
                | 0x0000_0000_0000_0000_c000_0000_0000_0000u128))
                | 0x0000_0000_0000_4000_0000_0000_0000_0000u128
                | 0x0000_0000_0000_0000_8000_0000_0000_0000u128,
    ;
    r
}

/// A fresh random identifier: a version-4 UUID over 122 random bits.
pub fn uuid4() -> (r: u128)
    ensures
        r & VERSION_MASK == VERSION_4,
        r & VARIANT_MASK == VARIANT_RFC4122,
{
    uuid_from_random_bits(random_bits())
}

/// Whether `s` holds a `.` before position `end`.
pub open spec fn has_dot_before(s: Seq<char>, end: int) -> bool {
    exists|i: int| 0 <= i < end && s[i] == '.'
}

/// The part of a file name before its first `.`, or `None` where it holds
/// no `.`.
pub fn get_file_prefix(filename: &str) -> (r: Option<&str>)
    ensures
        !has_dot_before(filename@, filename@.len() as int) <==> r is None,
        r matches Some(p) ==> p@.len() < filename@.len() && filename@[p@.len() as int] == '.'
            && !has_dot_before(filename@, p@.len() as int) && p@ == filename@.subrange(
            0,
            p@.len() as int,
        ),
{
    let n = filename.unicode_len();
    let mut i: usize = 0;
    while i < n
        invariant
            n == filename@.len(),
            i <= n,
            !has_dot_before(filename@, i as int),
        decreases n - i,
    {
        if filename.get_char(i) == '.' {
            let p = filename.substring_char(0, i);
            return Some(p);
        }
        i = i + 1;
    }
    None
}

pub open spec fn hex_char(n: int) -> char {
    seq!['0', '1', '2', '3', '4', '5', '6', '7', '8', '9', 'a', 'b', 'c', 'd', 'e', 'f'][n]
}

/// The `k`-th hexadecimal digit of `id`, counted from the most significant.
pub open spec fn nibble(id: u128, k: int) -> int {
    ((id >> ((124 - 4 * k) as u128)) & 0xf) as int
}

/// Whether a hyphen goes before the `k`-th digit of a UUID's text.
pub open spec fn hyphen_before(k: int) -> bool {
    k == 8 || k == 12 || k == 16 || k == 20
}

/// The text of the first `k` digits of `id` in the hyphenated form, with
/// the hyphens that fall between them.
pub open spec fn id_text_upto(id: u128, k: nat) -> Seq<char>
    decreases k,
{
    if k == 0 {
        Seq::empty()
    } else {
        let j = k - 1;
        id_text_upto(id, j as nat) + (if hyphen_before(j) {
            seq!['-']
        } else {
            Seq::empty()
        }) + seq![hex_char(nibble(id, j))]
    }
}

/// The hyphenated text of a UUID: 32 lower-case hexadecimal digits in
/// groups of 8, 4, 4, 4 and 12.
pub open spec fn id_text(id: u128) -> Seq<char> {
    id_text_upto(id, 32)
}

/// The name of the file that holds the record stored at `id`: the
/// identifier's hyphenated text, with the extension, if any, after a dot.
pub open spec fn file_name_of(id: u128, extension: Option<Seq<char>>) -> Seq<char> {
    match extension {
        Some(e) => id_text(id) + seq!['.'] + e,
        None => id_text(id),
    }
}

/// The hyphenated text of `id`.
pub fn id_to_string(id: u128) -> (r: String)
    ensures
        r@ == id_text(id),
{
    proof {
        reveal_strlit("0123456789abcdef");
        reveal_strlit("-");
    }
    let digits: &str = "0123456789abcdef";
    let mut out = String::new();
    let mut k: u32 = 0;
    while k < 32
        invariant
            k <= 32,
            out@ == id_text_upto(id, k as nat),
            digits@ == seq!['0', '1', '2', '3', '4', '5', '6', '7', '8', '9', 'a', 'b', 'c', 'd', 'e', 'f'],
            "-"@ == seq!['-'],
        decreases 32 - k,
    {
        if k == 8 || k == 12 || k == 16 || k == 20 {
            out.append("-");
        }
        let shift: u128 = (124 - 4 * k) as u128;
        let n = ((id >> shift) & 0xf) as usize;
        assert(((id >> shift) & 0xfu128) <= 0xfu128) by (bit_vector);
        let digit = digits.substring_char(n, n + 1);
        out.append(digit);
        proof {
            assert(digit@ =~= seq![hex_char(nibble(id, k as int))]);
            assert(out@ =~= id_text_upto(id, (k + 1) as nat));
        }
        k = k + 1;
    }
    out
}

/// The name of the file for the record stored at `id`, with `extension`
/// after a dot where there is one.
pub fn stored_file_name(id: u128, extension: Option<&str>) -> (r: String)
    ensures
        r@ == file_name_of(
            id,
            match extension {
                Some(e) => Some(e@),
                None => None,
            },
        ),
{
    let mut name = id_to_string(id);
    match extension {
        Some(e) => {
            proof {
                reveal_strlit(".");
            }
            name.append(".");
            name.append(e);
        },
        None => {},
    }
    name
}

/// The path of the file for the record stored at `id`, in the directory
/// `dir`.
pub open spec fn upload_path_of(dir: Seq<char>, id: u128, extension: Option<Seq<char>>) -> Seq<
    char,
> {
    dir + seq!['/'] + file_name_of(id, extension)
}

/// The view of an optional text.
pub open spec fn opt_text(o: Option<&str>) -> Option<Seq<char>> {
    match o {
        Some(e) => Some(e@),
        None => None,
    }
}

/// The path of the file for the record stored at `id`, in the directory
/// `dir`, with `extension` after a dot where there is one.
pub fn upload_path(dir: &str, id: u128, extension: Option<&str>) -> (r: String)
    ensures
        r@ == upload_path_of(dir@, id, opt_text(extension)),
{
    proof {
        reveal_strlit("/");
    }
    let mut path = String::from_str(dir);
    path.append("/");
    let name = stored_file_name(id, extension);
    path.append(name.as_str());
    assert(path@ =~= upload_path_of(dir@, id, opt_text(extension)));
    path
}

} // verus!
