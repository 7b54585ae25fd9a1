//! Archives whose headers claim more than can be read.

use vstd::prelude::*;

verus! {

/// Bytes in a header, and in each block that a member is padded to.
pub const BLOCK: usize = 512;

/// Type of a member that gives the next one a long name.
pub const LONG_NAME: u8 = 76;

/// Type of a member that gives the next one a long link target.
pub const LONG_LINK: u8 = 75;

/// Type of a member that holds further attributes of the next one.
pub const ATTRIBUTES: u8 = 120;

/// Type of a sparse file.
pub const SPARSE: u8 = 83;

/// Digits in the smallest number that can carry a position past 64 bits.
pub const LONG_NUMBER: usize = 19;

/// Most bytes that a vector can hold.
pub const VECTOR_LIMIT: u64 = 0x7FFF_FFFF_FFFF_FFFF;

// ---------------------------------------------------------------------------
// Numbers in headers
// ---------------------------------------------------------------------------

/// The bytes before the first NUL.
pub open spec fn up_to_nul(s: Seq<u8>) -> Seq<u8>
    decreases s.len(),
{
    if s.len() == 0 || s[0] == 0 {
        Seq::empty()
    } else {
        seq![s[0]] + up_to_nul(s.drop_first())
    }
}

/// Whether a byte is white space in ASCII.
pub open spec fn is_space(b: u8) -> bool {
    b == 32 || 9 <= b <= 13
}

/// `s` without white space at its ends.
pub open spec fn trimmed(s: Seq<u8>) -> Seq<u8>
    decreases s.len(),
{
    if s.len() > 0 && is_space(s[0]) {
        trimmed(s.drop_first())
    } else if s.len() > 0 && is_space(s.last()) {
        trimmed(s.drop_last())
    } else {
        s
    }
}

/// `s` without a plus sign before it.
pub open spec fn unsigned(s: Seq<u8>) -> Seq<u8> {
    if s.len() > 0 && s[0] == 43 {
        s.drop_first()
    } else {
        s
    }
}

/// Whether `s` is a number in octal digits.
pub open spec fn is_octal(s: Seq<u8>) -> bool {
    s.len() > 0 && forall|i: int| 0 <= i < s.len() ==> 48 <= #[trigger] s[i] <= 55
}

/// The value of octal digits.
pub open spec fn octal_value(s: Seq<u8>) -> nat
    decreases s.len(),
{
    if s.len() == 0 {
        0
    } else {
        (octal_value(s.drop_last()) * 8 + (s.last() - 48)) as nat
    }
}

/// The value of eight bytes, the highest first.
pub open spec fn big_endian(s: Seq<u8>) -> nat {
    (s[0] * 0x100_0000_0000_0000 + s[1] * 0x1_0000_0000_0000 + s[2] * 0x100_0000_0000 + s[3]
        * 0x1_0000_0000 + s[4] * 0x100_0000 + s[5] * 0x1_0000 + s[6] * 0x100 + s[7]) as nat
}

/// The number in a field of twelve bytes: binary in its last eight where the top
/// bit of the field is set, else in octal digits.
pub open spec fn number(field: Seq<u8>) -> Option<nat> {
    let digits = unsigned(trimmed(up_to_nul(field)));
    if field[0] >= 128 {
        Some(big_endian(field.skip(4)))
    } else if is_octal(digits) {
        Some(octal_value(digits))
    } else {
        None
    }
}

/// Whether a field holds ASCII, as far as it is read as digits.
pub open spec fn is_ascii(field: Seq<u8>) -> bool {
    forall|i: int|
        0 <= i < up_to_nul(field).len() ==> #[trigger] up_to_nul(field)[i] < 128
}

/// Whether so many decimal digits stand in a row at `i`.
pub open spec fn digits_at(s: Seq<u8>, i: int) -> bool {
    &&& 0 <= i <= s.len() - LONG_NUMBER
    &&& forall|j: int| i <= j < i + LONG_NUMBER ==> 48 <= #[trigger] s[j] <= 57
}

/// Whether `s` holds a decimal number that could carry a position past 64 bits.
pub open spec fn has_long_number(s: Seq<u8>) -> bool {
    exists|i: int| #[trigger] digits_at(s, i)
}

// ---------------------------------------------------------------------------
// Headers
// ---------------------------------------------------------------------------

/// Whether a header is of GNU's format.
pub open spec fn is_gnu(h: Seq<u8>) -> bool {
    h.subrange(257, 265) == seq![117u8, 115, 116, 97, 114, 32, 32, 0]
}

/// Whether a header is of the POSIX format.
pub open spec fn is_ustar(h: Seq<u8>) -> bool {
    h.subrange(257, 265) == seq![117u8, 115, 116, 97, 114, 0, 48, 48]
}

/// Whether a header belongs to a member that only describes the next one.
pub open spec fn leads(h: Seq<u8>) -> bool {
    (is_gnu(h) || is_ustar(h)) && (h[156] == LONG_NAME || h[156] == LONG_LINK || h[156]
        == ATTRIBUTES)
}

/// The field for the size of a member.
pub open spec fn size_field(h: Seq<u8>) -> Seq<u8> {
    h.subrange(124, 136)
}

/// The field for the length of a sparse file with its gaps.
pub open spec fn length_field(h: Seq<u8>) -> Seq<u8> {
    h.subrange(483, 495)
}

/// A number of bytes, filled up to whole blocks.
pub open spec fn padded(n: nat) -> nat {
    ((n + 511) / 512 * 512) as nat
}

/// The part of an archive from `from` on, `n` bytes long or as long as there is.
pub open spec fn stretch(archive: Seq<u8>, from: int, n: nat) -> Seq<u8> {
    if from + n <= archive.len() {
        archive.subrange(from, from + n)
    } else {
        archive.skip(from)
    }
}

/// Whether a sparse file claims a size after which no position in the archive
/// fits in 64 bits while there are further headers to read for it (`numbered` is
/// whether attributes may have given it another size), or a length that no vector
/// holds.
pub open spec fn claims_too_much(h: Seq<u8>, archive_len: nat, numbered: bool) -> bool {
    &&& is_gnu(h)
    &&& h[156] == SPARSE
    &&& {
        ||| h[482] == 1 && numbered
        ||| h[482] == 1 && number(size_field(h)) is Some && number(size_field(h))->0 + archive_len
            + 512 > u64::MAX
        ||| number(length_field(h)) is Some && number(length_field(h))->0 > VECTOR_LIMIT
    }
}

/// Whether the first file at or after the header at `at` claims too much. Members
/// that only describe the next one are passed over; one of these with a size that
/// is not even ASCII counts as claiming too much itself.
pub open spec fn overruns_from(archive: Seq<u8>, at: int, numbered: bool) -> bool
    decreases
            if at <= archive.len() {
                archive.len() - at
            } else {
                0
            },
{
    if at < 0 || at + 512 > archive.len() {
        false
    } else {
        let h = archive.subrange(at, at + 512);
        if leads(h) {
            match number(size_field(h)) {
                Some(n) => overruns_from(
                    archive,
                    at + 512 + padded(n),
                    numbered || (h[156] == ATTRIBUTES && has_long_number(
                        stretch(archive, at + 512, n),
                    )),
                ),
                None => !is_ascii(size_field(h)),
            }
        } else {
            claims_too_much(h, archive.len(), numbered)
        }
    }
}

/// Whether the first file of an archive claims more than can be read. No tool
/// writes such an archive.
pub open spec fn overruns(archive: Seq<u8>) -> bool {
    overruns_from(archive, 0, false)
}

// ---------------------------------------------------------------------------
// The test
// ---------------------------------------------------------------------------

/// 8 to the power of `n`.
spec fn pow8(n: nat) -> nat
    decreases n,
{
    if n == 0 {
        1
    } else {
        8 * pow8((n - 1) as nat)
    }
}

proof fn lemma_octal_bound(s: Seq<u8>)
    requires
        forall|i: int| 0 <= i < s.len() ==> 48 <= #[trigger] s[i] <= 55,
        s.len() <= 12,
    ensures
        octal_value(s) < pow8(s.len()),
        octal_value(s) <= 0xF_FFFF_FFFF,
    decreases s.len(),
{
    reveal_with_fuel(pow8, 13);
    if s.len() > 0 {
        let front = s.drop_last();
        assert forall|i: int| 0 <= i < front.len() implies 48 <= #[trigger] front[i] <= 55 by {
            assert(front[i] == s[i]);
        }
        lemma_octal_bound(front);
        assert(s.last() == s[s.len() - 1]);
    }
}

proof fn lemma_up_to_nul(s: Seq<u8>, n: int)
    requires
        0 <= n <= s.len(),
        forall|i: int| 0 <= i < n ==> #[trigger] s[i] != 0,
        n < s.len() ==> s[n] == 0,
    ensures
        up_to_nul(s) == s.take(n),
    decreases n,
{
    if n > 0 {
        let t = s.drop_first();
        assert(s[0] != 0);
        assert forall|i: int| 0 <= i < n - 1 implies #[trigger] t[i] != 0 by {
            assert(t[i] == s[i + 1]);
        }
        lemma_up_to_nul(t, n - 1);
        assert(up_to_nul(s) =~= s.take(n));
    } else {
        assert(up_to_nul(s) =~= s.take(0));
    }
}

fn space(b: u8) -> (r: bool)
    ensures
        r == is_space(b),
{
    b == 32 || (9 <= b && b <= 13)
}

/// The end of the bytes before the first NUL of the field at `at`.
fn text_end(archive: &Vec<u8>, at: usize) -> (r: usize)
    requires
        at + 12 <= archive.len(),
    ensures
        at <= r <= at + 12,
        up_to_nul(archive@.subrange(at as int, at + 12)) == archive@.subrange(
            at as int,
            r as int,
        ),
{
    let mut n: usize = at;
    let ghost field = archive@.subrange(at as int, at + 12);
    while n < at + 12 && archive[n] != 0
        invariant
            at <= n <= at + 12 <= archive.len(),
            field == archive@.subrange(at as int, at + 12),
            forall|i: int| 0 <= i < n - at ==> #[trigger] field[i] != 0,
        decreases at + 12 - n,
    {
        assert(field[n - at] == archive@[n as int]);
        n += 1;
    }
    proof {
        if n < at + 12 {
            assert(field[n - at] == archive@[n as int]);
        }
        lemma_up_to_nul(field, n - at);
        assert(field.take(n - at) =~= archive@.subrange(at as int, n as int));
    }
    n
}

/// The number in the field at `at`.
fn number_at(archive: &Vec<u8>, at: usize) -> (r: Option<u64>)
    requires
        at + 12 <= archive.len(),
    ensures
        match number(archive@.subrange(at as int, at + 12)) {
            Some(n) => r is Some && r->0 == n,
            None => r is None,
        },
{
    let ghost field = archive@.subrange(at as int, at + 12);
    assert(field[0] == archive@[at as int]);
    if archive[at] >= 128 {
        let ghost low = field.skip(4);
        assert(forall|i: int| 0 <= i < 8 ==> #[trigger] low[i] == archive@[at + 4 + i]);
        let value: u64 = archive[at + 4] as u64 * 0x100_0000_0000_0000 + archive[at + 5] as u64
            * 0x1_0000_0000_0000 + archive[at + 6] as u64 * 0x100_0000_0000 + archive[at + 7] as u64
            * 0x1_0000_0000 + archive[at + 8] as u64 * 0x100_0000 + archive[at + 9] as u64 * 0x1_0000
            + archive[at + 10] as u64 * 0x100 + archive[at + 11] as u64;
        assert(value == big_endian(low));
        return Some(value);
    }
    let mut hi: usize = text_end(archive, at);
    let mut lo: usize = at;
    let ghost text = archive@.subrange(lo as int, hi as int);
    while lo < hi && space(archive[lo])
        invariant
            at <= lo <= hi <= at + 12 <= archive.len(),
            trimmed(text) == trimmed(archive@.subrange(lo as int, hi as int)),
        decreases hi - lo,
    {
        assert(archive@.subrange(lo as int, hi as int).drop_first() =~= archive@.subrange(
            lo + 1,
            hi as int,
        ));
        lo += 1;
    }
    while lo < hi && space(archive[hi - 1])
        invariant
            at <= lo <= hi <= at + 12 <= archive.len(),
            lo < hi ==> !is_space(archive@[lo as int]),
            trimmed(text) == trimmed(archive@.subrange(lo as int, hi as int)),
        decreases hi - lo,
    {
        assert(archive@.subrange(lo as int, hi as int).drop_last() =~= archive@.subrange(
            lo as int,
            hi - 1,
        ));
        hi -= 1;
    }
    assert(trimmed(text) == archive@.subrange(lo as int, hi as int));
    if lo < hi && archive[lo] == 43 {
        assert(archive@.subrange(lo as int, hi as int).drop_first() =~= archive@.subrange(
            lo + 1,
            hi as int,
        ));
        lo += 1;
    }
    let ghost digits = archive@.subrange(lo as int, hi as int);
    assert(digits == unsigned(trimmed(up_to_nul(field))));
    if lo == hi {
        return None;
    }
    let mut value: u64 = 0;
    let mut i: usize = lo;
    while i < hi
        invariant
            lo <= i <= hi <= archive.len(),
            hi - lo <= 12,
            digits == archive@.subrange(lo as int, hi as int),
            digits == unsigned(trimmed(up_to_nul(field))),
            field == archive@.subrange(at as int, at + 12),
            at + 12 <= archive.len(),
            field[0] < 128,
            forall|k: int| 0 <= k < i - lo ==> 48 <= #[trigger] digits[k] <= 55,
            value == octal_value(digits.take(i - lo)),
        decreases hi - i,
    {
        assert(digits[i - lo] == archive@[i as int]);
        let b: u8 = archive[i];
        if b < 48 || b > 55 {
            return None;
        }
        let ghost next = digits.take(i + 1 - lo);
        assert(next.drop_last() =~= digits.take(i - lo));
        assert(next.last() == b);
        proof {
            lemma_octal_bound(next.drop_last());
        }
        value = value * 8 + (b - 48) as u64;
        i += 1;
    }
    assert(digits.take(i - lo) =~= digits);
    Some(value)
}

fn ascii_at(archive: &Vec<u8>, at: usize) -> (r: bool)
    requires
        at + 12 <= archive.len(),
    ensures
        r == is_ascii(archive@.subrange(at as int, at + 12)),
{
    let end = text_end(archive, at);
    let ghost text = archive@.subrange(at as int, end as int);
    let mut i: usize = at;
    while i < end
        invariant
            at <= i <= end <= archive.len(),
            at + 12 <= archive.len(),
            text == archive@.subrange(at as int, end as int),
            text == up_to_nul(archive@.subrange(at as int, at + 12)),
            forall|k: int| 0 <= k < i - at ==> #[trigger] text[k] < 128,
        decreases end - i,
    {
        assert(text[i - at] == archive@[i as int]);
        if archive[i] >= 128 {
            return false;
        }
        i += 1;
    }
    true
}

/// Whether the bytes of `archive` from `from` up to `to` hold a long number.
fn long_number_in(archive: &Vec<u8>, from: usize, to: usize) -> (r: bool)
    requires
        from <= to <= archive.len(),
    ensures
        r == has_long_number(archive@.subrange(from as int, to as int)),
{
    let ghost s = archive@.subrange(from as int, to as int);
    let mut run: usize = 0;
    let mut i: usize = from;
    while i < to
        invariant
            from <= i <= to <= archive.len(),
            s == archive@.subrange(from as int, to as int),
            run < LONG_NUMBER,
            run <= i - from,
            forall|k: int| i - from - run <= k < i - from ==> 48 <= #[trigger] s[k] <= 57,
            run < i - from ==> !(48 <= s[i - from - run - 1] <= 57),
            forall|k: int| 0 <= k <= i - from - LONG_NUMBER ==> !#[trigger] digits_at(s, k),
        decreases to - i,
    {
        assert(s[i - from] == archive@[i as int]);
        let b: u8 = archive[i];
        if 48 <= b && b <= 57 {
            run += 1;
            if run == LONG_NUMBER {
                assert(digits_at(s, i + 1 - from - LONG_NUMBER));
                return true;
            }
        } else {
            run = 0;
        }
        i += 1;
        proof {
            let k = i - from - LONG_NUMBER;
            if 0 <= k {
                // The window that ends here starts before the run, so it holds what broke it.
                let j = i - from - run - 1;
                assert(k <= j < k + LONG_NUMBER);
                if digits_at(s, k) {
                    assert(48 <= s[j] <= 57);
                }
                assert(!digits_at(s, k));
            }
        }
    }
    assert forall|k: int| !#[trigger] digits_at(s, k) by {
        if 0 <= k <= s.len() - LONG_NUMBER {
        }
    }
    false
}

fn magic_at(archive: &Vec<u8>, at: usize) -> (r: (bool, bool))
    requires
        at + 512 <= archive.len(),
    ensures
        r.0 == is_gnu(archive@.subrange(at as int, at + 512)),
        r.1 == is_ustar(archive@.subrange(at as int, at + 512)),
{
    let ghost h = archive@.subrange(at as int, at + 512);
    let ghost magic = h.subrange(257, 265);
    assert(forall|i: int| 0 <= i < 8 ==> #[trigger] magic[i] == archive@[at + 257 + i]);
    let p: usize = at + 257;
    let name = archive[p] == 117 && archive[p + 1] == 115 && archive[p + 2] == 116 && archive[p + 3]
        == 97 && archive[p + 4] == 114;
    let gnu = name && archive[p + 5] == 32 && archive[p + 6] == 32 && archive[p + 7] == 0;
    let ustar = name && archive[p + 5] == 0 && archive[p + 6] == 48 && archive[p + 7] == 48;
    proof {
        let g = seq![117u8, 115, 116, 97, 114, 32, 32, 0];
        let u = seq![117u8, 115, 116, 97, 114, 0, 48, 48];
        if gnu {
            assert(magic =~= g);
        } else {
            assert(magic == g ==> magic[0] == 117 && magic[1] == 115 && magic[2] == 116 && magic[3]
                == 97 && magic[4] == 114 && magic[5] == 32 && magic[6] == 32 && magic[7] == 0);
        }
        if ustar {
            assert(magic =~= u);
        } else {
            assert(magic == u ==> magic[0] == 117 && magic[1] == 115 && magic[2] == 116 && magic[3]
                == 97 && magic[4] == 114 && magic[5] == 0 && magic[6] == 48 && magic[7] == 48);
        }
    }
    (gnu, ustar)
}

fn claims_too_much_at(archive: &Vec<u8>, at: usize, numbered: bool, gnu: bool) -> (r: bool)
    requires
        at + 512 <= archive.len(),
        gnu == is_gnu(archive@.subrange(at as int, at + 512)),
    ensures
        r == claims_too_much(archive@.subrange(at as int, at + 512), archive@.len(), numbered),
{
    let ghost h = archive@.subrange(at as int, at + 512);
    assert(h[156] == archive@[at + 156]);
    assert(h[482] == archive@[at + 482]);
    assert(size_field(h) =~= archive@.subrange(at + 124, at + 136));
    assert(length_field(h) =~= archive@.subrange(at + 483, at + 495));
    if !gnu || archive[at + 156] != SPARSE {
        return false;
    }
    if archive[at + 482] == 1 {
        if numbered {
            return true;
        }
        if let Some(n) = number_at(archive, at + 124) {
            let reach: u128 = n as u128 + archive.len() as u128 + 512;
            if reach > u64::MAX as u128 {
                return true;
            }
        }
    }
    match number_at(archive, at + 483) {
        Some(n) => n > VECTOR_LIMIT,
        None => false,
    }
}

/// Whether the first file of an archive claims more than can be read.
pub fn claims_overrun(archive: &Vec<u8>) -> (r: bool)
    ensures
        r == overruns(archive@),
{
    let len = archive.len();
    let mut at: usize = 0;
    let mut numbered: bool = false;
    while len >= BLOCK && at <= len - BLOCK
        invariant
            len == archive.len(),
            at <= len,
            overruns(archive@) == overruns_from(archive@, at as int, numbered),
        decreases len - at,
    {
        let ghost h = archive@.subrange(at as int, at + 512);
        assert(h[156] == archive@[at + 156]);
        assert(size_field(h) =~= archive@.subrange(at + 124, at + 136));
        let (gnu, ustar) = magic_at(archive, at);
        let kind: u8 = archive[at + 156];
        if !((gnu || ustar) && (kind == LONG_NAME || kind == LONG_LINK || kind == ATTRIBUTES)) {
            return claims_too_much_at(archive, at, numbered, gnu);
        }
        let size: u64 = match number_at(archive, at + 124) {
            Some(n) => n,
            None => {
                return !ascii_at(archive, at + 124);
            },
        };
        let body: usize = at + BLOCK;
        proof {
            reveal_with_fuel(overruns_from, 2);
            assert(padded(size as nat) >= size);
        }
        if size > (len - body) as u64 {
            return false;
        }
        let end: usize = body + size as usize;
        let rest: u64 = size % 512;
        let pad: usize = if rest == 0 {
            0
        } else {
            (512 - rest) as usize
        };
        assert(padded(size as nat) == size + pad);
        if pad > len - end {
            return false;
        }
        let long = kind == ATTRIBUTES && long_number_in(archive, body, end);
        assert(stretch(archive@, body as int, size as nat) == archive@.subrange(
            body as int,
            end as int,
        ));
        numbered = numbered || long;
        at = end + pad;
    }
    false
}

// ---------------------------------------------------------------------------
// Laws
// ---------------------------------------------------------------------------

/// Octal digits are read one after the other, eight bytes with the highest first.
pub proof fn numbers_are_read_digit_by_digit(digits: Seq<u8>, d: u8, s: Seq<u8>)
    requires
        48 <= d <= 55,
    ensures
        octal_value(Seq::empty()) == 0,
        octal_value(digits.push(d)) == octal_value(digits) * 8 + (d - 48),
        big_endian(s) == ((((((s[0] * 256 + s[1]) * 256 + s[2]) * 256 + s[3]) * 256 + s[4]) * 256
            + s[5]) * 256 + s[6]) * 256 + s[7],
{
    assert(digits.push(d).drop_last() =~= digits);
}

/// An archive whose first header is neither of a sparse file nor of a member that only
/// describes the next one is never refused, whatever its size and whatever follows.
pub proof fn ordinary_archives_are_read(archive: Seq<u8>)
    requires
        archive.len() >= 512 ==> archive[156] != 76 && archive[156] != 75 && archive[156] != 120
            && archive[156] != 83,
    ensures
        !overruns(archive),
{
    if archive.len() >= 512 {
        assert(archive.subrange(0, 512)[156] == archive[156]);
    }
}

/// Whether a block at `at` is a header of a GNU sparse file, or the size that it
/// gives a member that only describes the next one is no ASCII.
pub open spec fn doubtful_at(archive: Seq<u8>, at: int) -> bool {
    &&& 0 <= at <= archive.len() - 512
    &&& at % 512 == 0
    &&& {
        ||| archive[at + 156] == 83 && archive.subrange(at + 257, at + 265) == seq![
            117u8,
            115,
            116,
            97,
            114,
            32,
            32,
            0,
        ]
        ||| (archive[at + 156] == 76 || archive[at + 156] == 75 || archive[at + 156] == 120)
            && exists|i: int| at + 124 <= i < at + 136 && #[trigger] archive[i] >= 128
    }
}

proof fn lemma_up_to_nul_is_prefix(s: Seq<u8>)
    ensures
        up_to_nul(s).len() <= s.len(),
        forall|i: int| 0 <= i < up_to_nul(s).len() ==> #[trigger] up_to_nul(s)[i] == s[i],
    decreases s.len(),
{
    if s.len() > 0 && s[0] != 0 {
        lemma_up_to_nul_is_prefix(s.drop_first());
        assert forall|i: int| 0 <= i < up_to_nul(s).len() implies #[trigger] up_to_nul(s)[i]
            == s[i] by {
            if i > 0 {
                assert(up_to_nul(s)[i] == up_to_nul(s.drop_first())[i - 1]);
                assert(s.drop_first()[i - 1] == s[i]);
            }
        }
    }
}

proof fn lemma_overrun_is_somewhere(archive: Seq<u8>, at: int, numbered: bool)
    requires
        overruns_from(archive, at, numbered),
        at % 512 == 0,
    ensures
        exists|p: int| #[trigger] doubtful_at(archive, p),
    decreases archive.len() - at,
{
    let h = archive.subrange(at, at + 512);
    assert(h[156] == archive[at + 156]);
    if leads(h) {
        match number(size_field(h)) {
            Some(n) => {
                let next = at + 512 + padded(n);
                assert(padded(n) % 512 == 0);
                assert(next % 512 == 0);
                reveal_with_fuel(overruns_from, 2);
                assert(next + 512 <= archive.len());
                lemma_overrun_is_somewhere(
                    archive,
                    next,
                    numbered || (h[156] == ATTRIBUTES && has_long_number(
                        stretch(archive, at + 512, n),
                    )),
                );
            },
            None => {
                let field = size_field(h);
                lemma_up_to_nul_is_prefix(field);
                let i = choose|i: int|
                    0 <= i < up_to_nul(field).len() && #[trigger] up_to_nul(field)[i] >= 128;
                assert(field[i] == archive[at + 124 + i]);
                assert(archive[at + 124 + i] >= 128);
                assert(doubtful_at(archive, at));
            },
        }
    } else {
        assert(h.subrange(257, 265) =~= archive.subrange(at + 257, at + 265));
        assert(doubtful_at(archive, at));
    }
}

/// No archive is refused unless one of its blocks is a header of a sparse file, or one
/// with a size that is no ASCII.
pub proof fn refused_archives_hold_a_doubtful_header(archive: Seq<u8>)
    requires
        overruns(archive),
    ensures
        exists|p: int| #[trigger] doubtful_at(archive, p),
{
    lemma_overrun_is_somewhere(archive, 0, false);
}

/// A sparse file that leads an archive and gives its size and its length in digits is
/// never refused.
pub proof fn sparse_files_of_ordinary_size_are_read(archive: Seq<u8>)
    requires
        512 <= archive.len() <= isize::MAX,
        archive[156] == 83,
        archive[124] < 128,
        archive[483] < 128,
    ensures
        !overruns(archive),
{
    let h = archive.subrange(0, 512);
    assert(h[156] == archive[156]);
    assert(size_field(h)[0] == archive[124]);
    assert(length_field(h)[0] == archive[483]);
    lemma_digits_are_small(size_field(h));
    lemma_digits_are_small(length_field(h));
}

proof fn lemma_trimmed_is_shorter(s: Seq<u8>)
    ensures
        trimmed(s).len() <= s.len(),
    decreases s.len(),
{
    if s.len() > 0 && is_space(s[0]) {
        lemma_trimmed_is_shorter(s.drop_first());
    } else if s.len() > 0 && is_space(s.last()) {
        lemma_trimmed_is_shorter(s.drop_last());
    }
}

proof fn lemma_digits_are_small(field: Seq<u8>)
    requires
        field.len() == 12,
        field[0] < 128,
    ensures
        number(field) is Some ==> number(field)->0 <= 0xF_FFFF_FFFF,
{
    lemma_up_to_nul_is_prefix(field);
    lemma_trimmed_is_shorter(up_to_nul(field));
    let digits = unsigned(trimmed(up_to_nul(field)));
    if is_octal(digits) {
        lemma_octal_bound(digits);
    }
}

/// A sparse file of GNU's format that leads an archive is refused where headers for it
/// follow and its size leaves no room for a position behind it in 64 bits, and where it
/// would be longer than any vector.
pub proof fn claims_that_cannot_be_read_are_refused(archive: Seq<u8>, size: nat)
    requires
        archive.len() >= 512,
        archive.subrange(257, 265) == seq![117u8, 115, 116, 97, 114, 32, 32, 0],
        archive[156] == 83,
        size == ((((((archive[128] * 256 + archive[129]) * 256 + archive[130]) * 256
            + archive[131]) * 256 + archive[132]) * 256 + archive[133]) * 256 + archive[134]) * 256
            + archive[135],
    ensures
        archive[482] == 1 && archive[124] >= 128 && size + archive.len() + 512
            > 0xFFFF_FFFF_FFFF_FFFF ==> overruns(archive),
        archive[483] >= 128 && archive[487] >= 128 ==> overruns(archive),
{
    let h = archive.subrange(0, 512);
    assert(h.subrange(257, 265) =~= archive.subrange(257, 265));
    assert(h[156] == archive[156] && h[482] == archive[482]);
    let f = size_field(h);
    let g = length_field(h);
    assert(f[0] == archive[124] && g[0] == archive[483]);
    assert(forall|i: int| 0 <= i < 8 ==> #[trigger] f.skip(4)[i] == archive[128 + i]);
    assert(forall|i: int| 0 <= i < 8 ==> #[trigger] g.skip(4)[i] == archive[487 + i]);
    numbers_are_read_digit_by_digit(Seq::empty(), 48, f.skip(4));
    assert(f.skip(4)[0] == archive[128] && f.skip(4)[1] == archive[129] && f.skip(4)[2]
        == archive[130] && f.skip(4)[3] == archive[131] && f.skip(4)[4] == archive[132] && f.skip(
        4,
    )[5] == archive[133] && f.skip(4)[6] == archive[134] && f.skip(4)[7] == archive[135]);
    assert(g.skip(4)[0] == archive[487]);
}

/// Octal digits before a NUL are the number of their value.
pub proof fn digits_before_a_nul_are_a_number(digits: Seq<u8>, rest: Seq<u8>)
    requires
        0 < digits.len(),
        forall|i: int| 0 <= i < digits.len() ==> 48 <= #[trigger] digits[i] <= 55,
    ensures
        number(digits + seq![0u8] + rest) == Some(octal_value(digits)),
{
    let field = digits + seq![0u8] + rest;
    let n = digits.len() as int;
    assert forall|i: int| 0 <= i < n implies #[trigger] field[i] != 0 by {
        assert(field[i] == digits[i]);
    }
    lemma_up_to_nul(field, n);
    assert(field.take(n) =~= digits);
    assert(48 <= digits[0] <= 55);
    assert(48 <= digits[n - 1] <= 55);
    assert(trimmed(digits) == digits);
    assert(unsigned(digits) == digits);
    assert(field[0] == digits[0]);
}

/// A member that only describes the next one is passed over with its contents, which
/// are filled up to whole blocks; what follows decides.
pub proof fn describing_members_are_passed_over(archive: Seq<u8>, at: int, n: nat, numbered: bool)
    requires
        0 <= at <= archive.len() - 512,
        archive[at + 156] == 76 || archive[at + 156] == 75,
        archive.subrange(at + 257, at + 265) == seq![117u8, 115, 116, 97, 114, 32, 32, 0]
            || archive.subrange(at + 257, at + 265) == seq![117u8, 115, 116, 97, 114, 0, 48, 48],
        number(archive.subrange(at + 124, at + 136)) == Some(n),
    ensures
        overruns_from(archive, at, numbered) == overruns_from(
            archive,
            at + 512 + padded(n),
            numbered,
        ),
        padded(n) % 512 == 0,
        n <= padded(n) < n + 512,
{
    let h = archive.subrange(at, at + 512);
    assert(h.subrange(257, 265) =~= archive.subrange(at + 257, at + 265));
    assert(h[156] == archive[at + 156]);
    assert(size_field(h) =~= archive.subrange(at + 124, at + 136));
    reveal_with_fuel(overruns_from, 2);
}

} // verus!
