//! The scan engine: per-sector verification and the orchestration state of
//! a scan.
//!
//! A candidate sector's first 64 bytes are the salt; a 64-byte key schedule
//! is derived from the password and that salt, its halves keying the XTS
//! decryption of the sector's second 16-byte block; the sector matches when
//! the first four decrypted bytes are the magic signature. Sectors whose
//! first five bytes are all zero are skipped before any key derivation, as
//! definitely-not-a-header.
//!
//! `ScanState` carries the bookkeeping of one scan: the number of
//! dispatched-but-undrained verification units (never above `JOB_CAP`),
//! the progress counter, the count of key derivations, and the matching
//! sector indices in arrival order. `scan_buffer` drives one read buffer's
//! worth of sectors through verification sequentially, and `scan_image`
//! a whole in-memory image over its ranges; a concurrent driver can use
//! the same transitions around a worker pool, draining every batch before
//! the buffer is refilled.

use crate::aes::kdf_ripemd160;
use crate::xts::spec_xts_decrypt;
use vstd::arithmetic::div_mod::lemma_fundamental_div_mod;
use vstd::arithmetic::mul::lemma_mul_inequality;
use vstd::prelude::*;
use vstd::string::StringExecFns;

verus! {

/// Bytes per sector.
pub const SECTOR_SIZE: u64 = 512;

/// Cap on dispatched-but-undrained verification units in one batch.
pub const JOB_CAP: u8 = 32;

/// The magic signature of a decrypted volume header: the bytes "TRUE".
pub open spec fn magic() -> Seq<u8> {
    seq![0x54u8, 0x52u8, 0x55u8, 0x45u8]
}

/// A sector is pre-filtered out when its first five bytes are all zero.
pub open spec fn sector_prefilter_zero(s: Seq<u8>) -> bool {
    forall|k: int| 0 <= k < 5 ==> s[k] == 0
}

/// What verifying a non-prefiltered sector computes: the key schedule from
/// password and the sector's 64-byte salt, the XTS decryption of the
/// sector's second 16-byte block at tweak index 0, and the magic check.
pub open spec fn spec_check_sector(s: Seq<u8>, pw: Seq<u8>) -> Option<Seq<u8>> {
    let keys = kdf_ripemd160(pw, s.subrange(0, 64), 2000, 64);
    let dec = spec_xts_decrypt(keys.subrange(0, 32), keys.subrange(32, 64), 0, s.subrange(64, 80));
    if dec.subrange(0, 4) == magic() {
        Option::Some(dec)
    } else {
        Option::None
    }
}

/// One sector's outcome: pre-filtered sectors never match; the rest go
/// through key derivation and decryption.
pub open spec fn spec_verify_sector(s: Seq<u8>, pw: Seq<u8>) -> Option<Seq<u8>> {
    if sector_prefilter_zero(s) {
        Option::None
    } else {
        spec_check_sector(s, pw)
    }
}

/// Law: a sector whose first five bytes are all zero is never submitted
/// for key derivation — its outcome is reached without one — and such a
/// sector never matches. It is still drained and counted in progress like
/// any other unit (see `scan_buffer`).
pub proof fn lemma_prefiltered_sector_skipped(s: Seq<u8>, pw: Seq<u8>)
    requires
        sector_prefilter_zero(s),
    ensures
        spec_verify_sector(s, pw) is None,
{
}

/// Copy of a byte slice into an owned vector.
fn bytes_to_vec(s: &[u8]) -> (r: Vec<u8>)
    ensures
        r@ == s@,
{
    vstd::slice::slice_to_vec(s)
}

/// Derive the 64-byte key schedule for one sector and split it into the
/// two AES-256 keys: bytes 0..32 for ciphertext decryption, bytes 32..64
/// for tweak generation.
pub fn derive_header_keys(password: &[u8], salt: &[u8]) -> (keys: (Vec<u8>, Vec<u8>))
    ensures
        keys.0@ == kdf_ripemd160(password@, salt@, 2000, 64).subrange(0, 32),
        keys.1@ == kdf_ripemd160(password@, salt@, 2000, 64).subrange(32, 64),
        keys.0@.len() == 32,
        keys.1@.len() == 32,
{
    let pool = crate::aes::pbkdf2_hmac_ripemd160(password, salt, 2000, 64);
    let k1 = bytes_to_vec(vstd::slice::slice_subrange(pool.as_slice(), 0, 32));
    let k2 = bytes_to_vec(vstd::slice::slice_subrange(pool.as_slice(), 32, 64));
    (k1, k2)
}

/// Does the sector start with five zero bytes?
pub fn sector_starts_zero(sector: &[u8]) -> (r: bool)
    requires
        sector@.len() >= 5,
    ensures
        r == sector_prefilter_zero(sector@),
{
    let mut i: usize = 0;
    while i < 5
        invariant
            i <= 5,
            sector@.len() >= 5,
            forall|k: int| 0 <= k < i ==> sector@[k] == 0,
        decreases 5 - i,
    {
        if *vstd::slice::slice_index_get(sector, i) != 0 {
            return false;
        }
        i = i + 1;
    }
    true
}

/// Verify one candidate sector the expensive way: derive its key schedule,
/// decrypt its header block, and test the magic signature. Returns the
/// decrypted block on a match.
pub fn check_sector(sector: &[u8], password: &[u8]) -> (r: Option<Vec<u8>>)
    requires
        sector@.len() >= 80,
    ensures
        r is Some <==> spec_check_sector(sector@, password@) is Some,
        r matches Some(v) ==> Option::Some(v@) == spec_check_sector(sector@, password@),
        r matches Some(v) ==> v@.len() == 16,
{
    let salt = vstd::slice::slice_subrange(sector, 0, 64);
    let (key1, key2) = derive_header_keys(password, salt);
    let header = vstd::slice::slice_subrange(sector, 64, 80);
    let dec = crate::xts::xts_decrypt(key1.as_slice(), key2.as_slice(), 0, header);
    let m = dec[0] == 0x54 && dec[1] == 0x52 && dec[2] == 0x55 && dec[3] == 0x45;
    proof {
        if m {
            assert(dec@.subrange(0, 4) =~= magic());
        } else {
            assert(dec@.subrange(0, 4)[0] == dec@[0]);
            assert(dec@.subrange(0, 4)[1] == dec@[1]);
            assert(dec@.subrange(0, 4)[2] == dec@[2]);
            assert(dec@.subrange(0, 4)[3] == dec@[3]);
        }
    }
    if m {
        Some(dec)
    } else {
        None
    }
}

/// One verification unit, as a worker runs it: the cheap pre-filter first,
/// key derivation and decryption only past it.
pub fn verify_sector(sector: &[u8], password: &[u8]) -> (r: Option<Vec<u8>>)
    requires
        sector@.len() >= 80,
    ensures
        r is Some <==> spec_verify_sector(sector@, password@) is Some,
        r matches Some(v) ==> Option::Some(v@) == spec_verify_sector(sector@, password@),
        r matches Some(v) ==> v@.len() == 16,
{
    if sector_starts_zero(sector) {
        None
    } else {
        check_sector(sector, password)
    }
}

/// The hexadecimal character for a value below 16, upper case.
pub open spec fn hex_digit_char(n: u8) -> char {
    if n == 0 {
        '0'
    } else if n == 1 {
        '1'
    } else if n == 2 {
        '2'
    } else if n == 3 {
        '3'
    } else if n == 4 {
        '4'
    } else if n == 5 {
        '5'
    } else if n == 6 {
        '6'
    } else if n == 7 {
        '7'
    } else if n == 8 {
        '8'
    } else if n == 9 {
        '9'
    } else if n == 10 {
        'A'
    } else if n == 11 {
        'B'
    } else if n == 12 {
        'C'
    } else if n == 13 {
        'D'
    } else if n == 14 {
        'E'
    } else {
        'F'
    }
}

/// The hex dump of a byte string: two upper-case digits and a space per
/// byte.
pub open spec fn hex_of_bytes(s: Seq<u8>) -> Seq<char>
    decreases s.len(),
{
    if s.len() == 0 {
        Seq::empty()
    } else {
        hex_of_bytes(s.drop_last()) + seq![
            hex_digit_char((s.last() / 16) as u8),
            hex_digit_char((s.last() % 16) as u8),
            ' ',
        ]
    }
}

/// The one-character string for a value below 16.
fn hex_digit_str(n: u8) -> (r: &'static str)
    requires
        n < 16,
    ensures
        r@ =~= seq![hex_digit_char(n)],
{
    proof {
        reveal_strlit("0");
        reveal_strlit("1");
        reveal_strlit("2");
        reveal_strlit("3");
        reveal_strlit("4");
        reveal_strlit("5");
        reveal_strlit("6");
        reveal_strlit("7");
        reveal_strlit("8");
        reveal_strlit("9");
        reveal_strlit("A");
        reveal_strlit("B");
        reveal_strlit("C");
        reveal_strlit("D");
        reveal_strlit("E");
        reveal_strlit("F");
    }
    if n == 0 {
        "0"
    } else if n == 1 {
        "1"
    } else if n == 2 {
        "2"
    } else if n == 3 {
        "3"
    } else if n == 4 {
        "4"
    } else if n == 5 {
        "5"
    } else if n == 6 {
        "6"
    } else if n == 7 {
        "7"
    } else if n == 8 {
        "8"
    } else if n == 9 {
        "9"
    } else if n == 10 {
        "A"
    } else if n == 11 {
        "B"
    } else if n == 12 {
        "C"
    } else if n == 13 {
        "D"
    } else if n == 14 {
        "E"
    } else {
        "F"
    }
}

/// Format a byte string as its hex dump, for the match notifications.
pub fn arr_as_hex_str(arr: &[u8]) -> (r: String)
    ensures
        r@ == hex_of_bytes(arr@),
{
    let mut s = String::new();
    let mut i: usize = 0;
    while i < arr.len()
        invariant
            i <= arr@.len(),
            s@ =~= hex_of_bytes(arr@.subrange(0, i as int)),
        decreases arr@.len() - i,
    {
        let b = *vstd::slice::slice_index_get(arr, i);
        proof {
            assert(b >> 4 == b / 16 && (b & 0xF) == b % 16 && b / 16 < 16) by (bit_vector);
            reveal_strlit(" ");
        }
        s.append(hex_digit_str(b >> 4));
        s.append(hex_digit_str(b & 0xF));
        s.append(" ");
        proof {
            let pre = arr@.subrange(0, i as int + 1);
            assert(pre.drop_last() =~= arr@.subrange(0, i as int));
            assert(pre.last() == b);
            assert(s@ =~= hex_of_bytes(pre));
        }
        i = i + 1;
    }
    proof {
        assert(arr@.subrange(0, arr@.len() as int) =~= arr@);
    }
    s
}

/// Total number of sectors over a list of inclusive ranges.
pub open spec fn total_sectors(rs: Seq<(u64, u64)>) -> int
    decreases rs.len(),
{
    if rs.len() == 0 {
        0
    } else {
        total_sectors(rs.drop_last()) + (rs.last().1 - rs.last().0 + 1)
    }
}

/// All ranges are well formed: start at or before end.
pub open spec fn ranges_wf(rs: Seq<(u64, u64)>) -> bool {
    forall|k: int| 0 <= k < rs.len() ==> (#[trigger] rs[k]).0 <= rs[k].1
}

proof fn lemma_total_sectors_prefix(rs: Seq<(u64, u64)>, i: int)
    requires
        ranges_wf(rs),
        0 <= i <= rs.len(),
    ensures
        total_sectors(rs.subrange(0, i)) <= total_sectors(rs),
    decreases rs.len() - i,
{
    if i < rs.len() {
        lemma_total_sectors_prefix(rs, i + 1);
        let pre = rs.subrange(0, i + 1);
        assert(pre.drop_last() =~= rs.subrange(0, i));
        assert(pre.last() == rs[i]);
    } else {
        assert(rs.subrange(0, i) =~= rs);
    }
}

/// Count the sectors that a scan over `sector_ranges` examines.
pub fn count_total_sectors(sector_ranges: &[(u64, u64)]) -> (r: u64)
    requires
        ranges_wf(sector_ranges@),
        total_sectors(sector_ranges@) <= u64::MAX,
    ensures
        r as int == total_sectors(sector_ranges@),
{
    let mut sum: u64 = 0;
    let mut i: usize = 0;
    while i < sector_ranges.len()
        invariant
            i <= sector_ranges@.len(),
            ranges_wf(sector_ranges@),
            total_sectors(sector_ranges@) <= u64::MAX,
            sum as int == total_sectors(sector_ranges@.subrange(0, i as int)),
        decreases sector_ranges@.len() - i,
    {
        let rg = *vstd::slice::slice_index_get(sector_ranges, i);
        proof {
            lemma_total_sectors_prefix(sector_ranges@, i as int + 1);
            let pre = sector_ranges@.subrange(0, i as int + 1);
            assert(pre.drop_last() =~= sector_ranges@.subrange(0, i as int));
            assert(pre.last() == rg);
        }
        sum = sum + (rg.1 - rg.0 + 1);
        i = i + 1;
    }
    proof {
        assert(sector_ranges@.subrange(0, sector_ranges@.len() as int) =~= sector_ranges@);
    }
    sum
}

/// The bookkeeping of one scan: dispatched-but-undrained units, sectors
/// examined, key derivations performed, and the matching sector indices in
/// the order their results arrived.
pub struct ScanState {
    pub in_flight: u8,
    pub progress: u64,
    pub derived: u64,
    pub found: Vec<u64>,
}

impl ScanState {
    /// Well-formedness: a batch never holds more than `JOB_CAP` units.
    pub open spec fn wf(self) -> bool {
        self.in_flight <= JOB_CAP
    }

    /// A fresh scan: nothing dispatched, examined, derived or found.
    pub fn new() -> (s: Self)
        ensures
            s.wf(),
            s.in_flight == 0,
            s.progress == 0,
            s.derived == 0,
            s.found@ == Seq::<u64>::empty(),
    {
        ScanState { in_flight: 0, progress: 0, derived: 0, found: Vec::new() }
    }

    /// Must the dispatcher drain before it may dispatch again?
    pub fn must_drain(&self) -> (r: bool)
        ensures
            r == (self.in_flight >= JOB_CAP),
    {
        self.in_flight >= JOB_CAP
    }

    /// One verification unit was handed to a worker.
    pub fn note_dispatch(&mut self)
        requires
            old(self).in_flight < JOB_CAP,
        ensures
            final(self).wf(),
            final(self).in_flight == old(self).in_flight + 1,
            final(self).progress == old(self).progress,
            final(self).derived == old(self).derived,
            final(self).found == old(self).found,
    {
        self.in_flight = self.in_flight + 1;
    }

    /// A key schedule was derived for one sector.
    pub fn note_derivation(&mut self)
        requires
            old(self).derived < u64::MAX,
        ensures
            final(self).in_flight == old(self).in_flight,
            final(self).progress == old(self).progress,
            final(self).derived == old(self).derived + 1,
            final(self).found == old(self).found,
            final(self).wf() == old(self).wf(),
    {
        self.derived = self.derived + 1;
    }

    /// One unit's result was drained: progress advances whether or not the
    /// sector matched; a match appends its sector index.
    pub fn record_result(&mut self, result: Option<(u64, u64, String)>)
        requires
            old(self).wf(),
            old(self).in_flight >= 1,
            old(self).progress < u64::MAX,
        ensures
            final(self).wf(),
            final(self).in_flight == old(self).in_flight - 1,
            final(self).progress == old(self).progress + 1,
            final(self).derived == old(self).derived,
            result matches Some(t) ==> final(self).found@ == old(self).found@.push(t.1),
            result is None ==> final(self).found@ == old(self).found@,
    {
        self.in_flight = self.in_flight - 1;
        self.progress = self.progress + 1;
        match result {
            Some(t) => {
                self.found.push(t.1);
            },
            None => {},
        }
    }
}

/// Law: at every observable point of a scan the number of
/// dispatched-but-undrained verification units is at most the fixed cap of
/// 32. Every transition preserves well-formedness, and a well-formed state
/// bounds the batch.
pub proof fn lemma_backpressure_bound(s: ScanState)
    requires
        s.wf(),
    ensures
        s.in_flight <= 32,
{
}

/// The bytes of sector number `j` within a read buffer.
pub open spec fn sector_at(buf: Seq<u8>, j: int) -> Seq<u8> {
    buf.subrange(512 * j, 512 * j + 512)
}

/// How many sectors a buffer holding `buf_len` bytes contributes to the
/// inclusive range `first..=end`: the final buffer of a range may be only
/// partially consumed.
pub open spec fn sectors_in(buf_len: int, first: int, end: int) -> int {
    let avail = buf_len / 512;
    let want = end - first + 1;
    if avail <= want {
        avail
    } else {
        want
    }
}

/// The indices of the first `n` sectors of the buffer that verify as
/// matches, in ascending order, offset by the buffer's first sector number.
pub open spec fn matched_sectors(buf: Seq<u8>, first: int, pw: Seq<u8>, n: int) -> Seq<u64>
    decreases n,
{
    if n <= 0 {
        Seq::empty()
    } else {
        let prev = matched_sectors(buf, first, pw, n - 1);
        if spec_verify_sector(sector_at(buf, n - 1), pw) is Some {
            prev.push((first + n - 1) as u64)
        } else {
            prev
        }
    }
}

/// How many of the first `n` sectors of the buffer pass the pre-filter and
/// so have a key schedule derived.
pub open spec fn derived_count(buf: Seq<u8>, n: int) -> int
    decreases n,
{
    if n <= 0 {
        0
    } else {
        derived_count(buf, n - 1) + (if sector_prefilter_zero(sector_at(buf, n - 1)) {
            0int
        } else {
            1int
        })
    }
}

proof fn lemma_derived_count_le(buf: Seq<u8>, n: int)
    requires
        n >= 0,
    ensures
        0 <= derived_count(buf, n) <= n,
    decreases n,
{
    if n > 0 {
        lemma_derived_count_le(buf, n - 1);
    }
}

/// Run every sector of one read buffer through verification, sequentially:
/// dispatch, verify, drain, one sector at a time, in ascending index
/// order. Progress advances by one per sector whether or not it matched; a
/// key schedule is derived exactly for the sectors the pre-filter lets
/// through; the matching sector indices are appended in order.
pub fn scan_buffer(
    st: &mut ScanState,
    buf: &[u8],
    first_sector: u64,
    end_sector: u64,
    password: &[u8],
)
    requires
        old(st).wf(),
        old(st).in_flight == 0,
        buf@.len() % 512 == 0,
        first_sector <= end_sector,
        end_sector < u64::MAX,
        first_sector <= u64::MAX / 512,
        old(st).progress + sectors_in(buf@.len() as int, first_sector as int, end_sector as int)
            <= u64::MAX,
        old(st).derived + sectors_in(buf@.len() as int, first_sector as int, end_sector as int)
            <= u64::MAX,
    ensures
        final(st).wf(),
        final(st).in_flight == 0,
        final(st).progress == old(st).progress + sectors_in(
            buf@.len() as int,
            first_sector as int,
            end_sector as int,
        ),
        final(st).derived == old(st).derived + derived_count(
            buf@,
            sectors_in(buf@.len() as int, first_sector as int, end_sector as int),
        ),
        final(st).found@ == old(st).found@ + matched_sectors(
            buf@,
            first_sector as int,
            password@,
            sectors_in(buf@.len() as int, first_sector as int, end_sector as int),
        ),
{
    let avail: usize = buf.len() / 512;
    let want: u64 = end_sector - first_sector + 1;
    let n: usize = if (avail as u64) <= want {
        avail
    } else {
        want as usize
    };
    let byte_offset: u64 = first_sector * SECTOR_SIZE;
    proof {
        assert(n as int == sectors_in(buf@.len() as int, first_sector as int, end_sector as int));
        lemma_fundamental_div_mod(buf@.len() as int, 512);
        lemma_mul_inequality(n as int, avail as int, 512);
    }
    let ghost n_spec = n as int;
    let buf_len: usize = buf.len();
    let mut j: usize = 0;
    while j < n
        invariant
            j <= n,
            buf_len == buf@.len(),
            n as int == n_spec,
            n_spec == sectors_in(buf@.len() as int, first_sector as int, end_sector as int),
            n * 512 <= buf@.len(),
            first_sector + n <= u64::MAX,
            st.wf(),
            st.in_flight == 0,
            st.progress == old(st).progress + j,
            old(st).progress + n_spec <= u64::MAX,
            old(st).derived + n_spec <= u64::MAX,
            st.derived == old(st).derived + derived_count(buf@, j as int),
            st.found@ == old(st).found@ + matched_sectors(
                buf@,
                first_sector as int,
                password@,
                j as int,
            ),
        decreases n - j,
    {
        proof {
            lemma_mul_inequality(j as int + 1, n as int, 512);
            lemma_derived_count_le(buf@, j as int);
        }
        let base: usize = j * 512;
        let sector = vstd::slice::slice_subrange(buf, base, base + 512);
        proof {
            assert(sector@ =~= sector_at(buf@, j as int));
        }
        st.note_dispatch();
        let res: Option<Vec<u8>> = if sector_starts_zero(sector) {
            None
        } else {
            st.note_derivation();
            check_sector(sector, password)
        };
        let sec_idx: u64 = first_sector + j as u64;
        let packaged: Option<(u64, u64, String)> = match res {
            Some(d) => Some((byte_offset, sec_idx, arr_as_hex_str(d.as_slice()))),
            None => None,
        };
        st.record_result(packaged);
        j = j + 1;
    }
    proof {
        assert(st.found@ == old(st).found@ + matched_sectors(
            buf@,
            first_sector as int,
            password@,
            n_spec,
        ));
    }
}

/// The bytes of absolute sector `s` of an image.
pub open spec fn image_sector(img: Seq<u8>, s: int) -> Seq<u8> {
    img.subrange(512 * s, 512 * s + 512)
}

/// The indices among the `n` sectors from `start` on that verify as
/// matches, in ascending order.
pub open spec fn matched_range(img: Seq<u8>, start: int, n: int, pw: Seq<u8>) -> Seq<u64>
    decreases n,
{
    if n <= 0 {
        Seq::empty()
    } else {
        let prev = matched_range(img, start, n - 1, pw);
        if spec_verify_sector(image_sector(img, start + n - 1), pw) is Some {
            prev.push((start + n - 1) as u64)
        } else {
            prev
        }
    }
}

/// How many of the `n` sectors from `start` on pass the pre-filter.
pub open spec fn derived_range(img: Seq<u8>, start: int, n: int) -> int
    decreases n,
{
    if n <= 0 {
        0
    } else {
        derived_range(img, start, n - 1) + (if sector_prefilter_zero(
            image_sector(img, start + n - 1),
        ) {
            0int
        } else {
            1int
        })
    }
}

/// The matches of a whole scan: each range's matches in range order.
pub open spec fn matched_in_ranges(img: Seq<u8>, rs: Seq<(u64, u64)>, pw: Seq<u8>) -> Seq<u64>
    decreases rs.len(),
{
    if rs.len() == 0 {
        Seq::empty()
    } else {
        matched_in_ranges(img, rs.drop_last(), pw) + matched_range(
            img,
            rs.last().0 as int,
            rs.last().1 - rs.last().0 + 1,
            pw,
        )
    }
}

/// The key derivations of a whole scan.
pub open spec fn derived_in_ranges(img: Seq<u8>, rs: Seq<(u64, u64)>) -> int
    decreases rs.len(),
{
    if rs.len() == 0 {
        0
    } else {
        derived_in_ranges(img, rs.drop_last()) + derived_range(
            img,
            rs.last().0 as int,
            rs.last().1 - rs.last().0 + 1,
        )
    }
}

proof fn lemma_derived_range_le(img: Seq<u8>, start: int, n: int)
    requires
        n >= 0,
    ensures
        0 <= derived_range(img, start, n) <= n,
    decreases n,
{
    if n > 0 {
        lemma_derived_range_le(img, start, n - 1);
    }
}

proof fn lemma_derived_in_ranges_le(img: Seq<u8>, rs: Seq<(u64, u64)>)
    requires
        ranges_wf(rs),
    ensures
        0 <= derived_in_ranges(img, rs) <= total_sectors(rs),
    decreases rs.len(),
{
    if rs.len() > 0 {
        assert(ranges_wf(rs.drop_last())) by {
            assert(forall|k: int|
                0 <= k < rs.len() - 1 ==> rs.drop_last()[k] == #[trigger] rs[k]);
        }
        lemma_derived_in_ranges_le(img, rs.drop_last());
        assert(rs[rs.len() - 1] == rs.last());
        lemma_derived_range_le(img, rs.last().0 as int, rs.last().1 - rs.last().0 + 1);
    }
}

/// A reference scan of a whole in-memory image: every range in order,
/// every covered sector verified exactly once. Progress ends at the total
/// sector count; derivations count exactly the sectors the pre-filter let
/// through; the matches are each range's matching indices, in range order.
pub fn scan_image(image: &[u8], sector_ranges: &[(u64, u64)], password: &[u8]) -> (st: ScanState)
    requires
        ranges_wf(sector_ranges@),
        total_sectors(sector_ranges@) <= u64::MAX,
        forall|k: int|
            0 <= k < sector_ranges@.len() ==> 512 * ((#[trigger] sector_ranges@[k]).1 as int + 1)
                <= image@.len(),
        forall|k: int|
            0 <= k < sector_ranges@.len() ==> (#[trigger] sector_ranges@[k]).0 <= u64::MAX / 512,
    ensures
        st.wf(),
        st.in_flight == 0,
        st.progress as int == total_sectors(sector_ranges@),
        st.derived as int == derived_in_ranges(image@, sector_ranges@),
        st.found@ == matched_in_ranges(image@, sector_ranges@, password@),
{
    let mut st = ScanState::new();
    let image_len: usize = image.len();
    let mut r: usize = 0;
    while r < sector_ranges.len()
        invariant
            r <= sector_ranges@.len(),
            image_len == image@.len(),
            ranges_wf(sector_ranges@),
            total_sectors(sector_ranges@) <= u64::MAX,
            forall|k: int|
                0 <= k < sector_ranges@.len() ==> 512 * ((#[trigger] sector_ranges@[k]).1 as int
                    + 1) <= image@.len(),
            forall|k: int|
                0 <= k < sector_ranges@.len() ==> (#[trigger] sector_ranges@[k]).0 <= u64::MAX
                    / 512,
            st.wf(),
            st.in_flight == 0,
            st.progress as int == total_sectors(sector_ranges@.subrange(0, r as int)),
            st.derived as int == derived_in_ranges(image@, sector_ranges@.subrange(0, r as int)),
            st.found@ == matched_in_ranges(image@, sector_ranges@.subrange(0, r as int), password@),
        decreases sector_ranges@.len() - r,
    {
        let rg = *vstd::slice::slice_index_get(sector_ranges, r);
        let (start_sector, end_sector) = rg;
        let byte_offset: u64 = start_sector * SECTOR_SIZE;
        proof {
            lemma_total_sectors_prefix(sector_ranges@, r as int + 1);
            let pre = sector_ranges@.subrange(0, r as int + 1);
            assert(pre.drop_last() =~= sector_ranges@.subrange(0, r as int));
            assert(pre.last() == rg);
            assert(ranges_wf(pre)) by {
                assert(forall|k: int| 0 <= k < pre.len() ==> pre[k] == #[trigger] sector_ranges@[k]);
            }
            lemma_derived_in_ranges_le(image@, pre);
            lemma_derived_in_ranges_le(image@, sector_ranges@.subrange(0, r as int));
            lemma_derived_range_le(image@, start_sector as int, end_sector - start_sector + 1);
        }
        let ghost range_n = end_sector - start_sector + 1;
        let mut done: u64 = 0;
        while done < end_sector - start_sector + 1
            invariant
                done <= range_n,
                range_n == end_sector - start_sector + 1,
                start_sector <= end_sector,
                end_sector < u64::MAX,
                image_len == image@.len(),
                512 * (end_sector as int + 1) <= image@.len(),
                start_sector <= u64::MAX / 512,
                st.wf(),
                st.in_flight == 0,
                st.progress as int == total_sectors(sector_ranges@.subrange(0, r as int))
                    + done,
                total_sectors(sector_ranges@.subrange(0, r as int)) + range_n <= u64::MAX,
                derived_in_ranges(image@, sector_ranges@.subrange(0, r as int)) + range_n
                    <= u64::MAX,
                st.derived as int == derived_in_ranges(
                    image@,
                    sector_ranges@.subrange(0, r as int),
                ) + derived_range(image@, start_sector as int, done as int),
                st.found@ == matched_in_ranges(
                    image@,
                    sector_ranges@.subrange(0, r as int),
                    password@,
                ) + matched_range(image@, start_sector as int, done as int, password@),
            decreases range_n - done,
        {
            let s: u64 = start_sector + done;
            proof {
                lemma_mul_inequality(s as int + 1, end_sector as int + 1, 512);
                lemma_derived_range_le(image@, start_sector as int, done as int);
            }
            let base: usize = (s as usize) * 512;
            let sector = vstd::slice::slice_subrange(image, base, base + 512);
            proof {
                assert(sector@ =~= image_sector(image@, s as int));
            }
            st.note_dispatch();
            let res: Option<Vec<u8>> = if sector_starts_zero(sector) {
                None
            } else {
                st.note_derivation();
                check_sector(sector, password)
            };
            let packaged: Option<(u64, u64, String)> = match res {
                Some(d) => Some((byte_offset, s, arr_as_hex_str(d.as_slice()))),
                None => None,
            };
            st.record_result(packaged);
            done = done + 1;
        }
        proof {
            let pre = sector_ranges@.subrange(0, r as int + 1);
            assert(pre.drop_last() =~= sector_ranges@.subrange(0, r as int));
            assert(pre.last() == rg);
        }
        r = r + 1;
    }
    proof {
        assert(sector_ranges@.subrange(0, sector_ranges@.len() as int) =~= sector_ranges@);
    }
    st
}

} // verus!
