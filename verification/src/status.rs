//! The status every ABI entry point returns, and the shim's own refusals.
//!
//! A status carries a code (`0` is success) and a fixed-size, NUL-terminated
//! message buffer. Messages are written truncated to fit, always leaving the
//! last byte for the NUL and never splitting a UTF-8 code point. A refusal
//! the shim raises itself carries [`IMAS_MVDD_CONVERSION_ERROR`] and a
//! message prefixed `IMAS-MVDD:`.
use vstd::prelude::*;
use vstd::string::StringSliceAdditionalSpecFns;
use vstd::utf8::{encode_utf8, is_char_boundary, valid_utf8};

use crate::dd_version::{version_text, DdVersion};
use crate::text::{lemma_encode_utf8_concat, owned};

verus! {

broadcast use vstd::utf8::encode_utf8_valid_utf8, vstd::utf8::is_char_boundary_start_end_of_seq;

/// Length of a status message buffer, the trailing NUL included.
pub const MAX_ERR_MSG_LEN: usize = 256;

/// Maximum array rank accepted across the ABI.
pub const MAXDIM: usize = 7;

/// The code of every refusal the shim raises itself rather than forwarding.
pub const IMAS_MVDD_CONVERSION_ERROR: i32 = -1000;

/// Fidelity verdict codes a loss-log entry is reported with. An exact
/// operation is never retained, so no code names it.
pub const IMAS_MVDD_FIDELITY_POTENTIALLY_LOSSY: i32 = 0;

pub const IMAS_MVDD_FIDELITY_LOSSY: i32 = 1;

pub const IMAS_MVDD_FIDELITY_UNMAPPABLE: i32 = 2;

/// Operation codes a loss-log entry is reported with.
pub const IMAS_MVDD_LOSS_OPERATION_READ: i32 = 0;

pub const IMAS_MVDD_LOSS_OPERATION_WRITE: i32 = 1;

pub const IMAS_MVDD_LOSS_OPERATION_DELETE: i32 = 2;

/// Status returned by every ABI entry point. `code == 0` means success.
#[allow(non_camel_case_types)]
#[derive(Debug, Clone, Copy)]
pub struct al_status_t {
    pub code: i32,
    pub message: [u8; MAX_ERR_MSG_LEN],
}

impl Default for al_status_t {
    fn default() -> (r: al_status_t)
        ensures
            r.code == 0,
            r.message@ == Seq::new(MAX_ERR_MSG_LEN as nat, |i: int| 0u8),
    {
        let r = al_status_t { code: 0, message: [0u8; MAX_ERR_MSG_LEN] };
        assert(r.message@ =~= Seq::new(MAX_ERR_MSG_LEN as nat, |i: int| 0u8));
        r
    }
}

/// A message buffer of zeros.
pub open spec fn zeroed() -> Seq<u8> {
    Seq::new(MAX_ERR_MSG_LEN as nat, |i: int| 0u8)
}

// ---------------------------------------------------------------------------
// Truncation
// ---------------------------------------------------------------------------

/// The largest character boundary of `bytes` at or below `n`.
pub open spec fn boundary_at_or_below(bytes: Seq<u8>, n: nat) -> nat
    decreases n,
{
    if n == 0 || is_char_boundary(bytes, n as int) {
        n
    } else {
        boundary_at_or_below(bytes, (n - 1) as nat)
    }
}

/// How many bytes of `bytes` fit in `capacity` without splitting a code
/// point.
pub open spec fn fitting_len(bytes: Seq<u8>, capacity: nat) -> nat {
    boundary_at_or_below(bytes, if bytes.len() < capacity { bytes.len() } else { capacity })
}

/// `buffer` with the longest whole-character prefix of `message` that leaves
/// room for the trailing NUL written over its start.
pub open spec fn written(buffer: Seq<u8>, message: Seq<char>) -> Seq<u8> {
    let bytes = encode_utf8(message);
    let len = fitting_len(bytes, (MAX_ERR_MSG_LEN - 1) as nat) as int;
    bytes.subrange(0, len) + buffer.subrange(len, MAX_ERR_MSG_LEN as int)
}

pub proof fn lemma_boundary_at_or_below(bytes: Seq<u8>, n: nat)
    ensures
        boundary_at_or_below(bytes, n) <= n,
        boundary_at_or_below(bytes, n) == 0 || is_char_boundary(
            bytes,
            boundary_at_or_below(bytes, n) as int,
        ),
        forall|k: int|
            boundary_at_or_below(bytes, n) < k <= n ==> !#[trigger] is_char_boundary(bytes, k),
    decreases n,
{
    if n > 0 && !is_char_boundary(bytes, n as int) {
        lemma_boundary_at_or_below(bytes, (n - 1) as nat);
    }
}

/// Writes as much of `message` as fits in `buffer`, always leaving room for
/// the trailing NUL and never splitting a UTF-8 code point. The bytes past
/// what was written are left as they were.
pub fn write_truncated(buffer: &mut [u8; MAX_ERR_MSG_LEN], message: &str)
    ensures
        final(buffer)@ == written(old(buffer)@, message@),
{
    let bytes = message.as_bytes();
    let ghost all = encode_utf8(message@);
    assert(bytes@ == all);
    let capacity: usize = MAX_ERR_MSG_LEN - 1;
    let mut len: usize = if bytes.len() < capacity {
        bytes.len()
    } else {
        capacity
    };
    let ghost start: nat = len as nat;
    assert(fitting_len(all, capacity as nat) == boundary_at_or_below(all, start));
    while len > 0 && !message.is_char_boundary(len)
        invariant
            len <= start,
            boundary_at_or_below(all, start) == boundary_at_or_below(all, len as nat),
            all == message.spec_bytes(),
        decreases len,
    {
        len = len - 1;
    }
    assert(boundary_at_or_below(all, len as nat) == len);
    let ghost before = buffer@;
    let mut i: usize = 0;
    while i < len
        invariant
            i <= len <= start <= MAX_ERR_MSG_LEN - 1,
            start <= all.len(),
            bytes@ == all,
            buffer@.len() == MAX_ERR_MSG_LEN,
            before.len() == MAX_ERR_MSG_LEN,
            forall|k: int| 0 <= k < i ==> buffer@[k] == all[k],
            forall|k: int| i <= k < MAX_ERR_MSG_LEN ==> buffer@[k] == before[k],
        decreases len - i,
    {
        buffer[i] = bytes[i];
        i = i + 1;
    }
    assert(buffer@ =~= written(before, message@));
}

// ---------------------------------------------------------------------------
// Refusals
// ---------------------------------------------------------------------------

/// A status with `code` and `message` written into an empty buffer.
pub open spec fn status_with(s: al_status_t, code: i32, message: Seq<char>) -> bool {
    s.code == code && s.message@ == written(zeroed(), message)
}

pub(crate) fn status_from(code: i32, message: &str) -> (r: al_status_t)
    ensures
        status_with(r, code, message@),
{
    let mut status = al_status_t { code, message: [0u8; MAX_ERR_MSG_LEN] };
    assert(status.message@ =~= zeroed());
    write_truncated(&mut status.message, message);
    status
}

/// `IMAS-MVDD: ` followed by `reason`.
pub open spec fn refusal_text(reason: Seq<char>) -> Seq<char> {
    "IMAS-MVDD: "@ + reason
}

/// A refusal the shim raises before any conversion context exists:
/// [`IMAS_MVDD_CONVERSION_ERROR`] with a message prefixed `IMAS-MVDD:`.
pub fn conversion_refusal(reason: &str) -> (r: al_status_t)
    ensures
        status_with(r, IMAS_MVDD_CONVERSION_ERROR, refusal_text(reason@)),
{
    let mut message = owned("IMAS-MVDD: ");
    message.append(reason);
    status_from(IMAS_MVDD_CONVERSION_ERROR, message.as_str())
}

/// The UTF-8 length of `s`.
pub open spec fn byte_len(s: Seq<char>) -> nat {
    encode_utf8(s).len()
}

/// The first character boundary of `bytes` at or above `n`.
pub open spec fn boundary_at_or_above(bytes: Seq<u8>, n: nat) -> nat
    decreases bytes.len() - n,
{
    if n >= bytes.len() || is_char_boundary(bytes, n as int) {
        n
    } else {
        boundary_at_or_above(bytes, n + 1)
    }
}

/// The bytes of `path` shortened from the left to fit `capacity`: whole if it
/// fits, dots alone if three or fewer bytes are available, else `...` and the
/// longest whole-character tail that fits.
pub open spec fn left_truncated(path: Seq<u8>, capacity: nat) -> Seq<u8> {
    if path.len() <= capacity {
        path
    } else if capacity <= 3 {
        Seq::new(capacity, |i: int| 46u8)
    } else {
        let start = boundary_at_or_above(path, (path.len() - (capacity - 3)) as nat);
        seq![46u8, 46u8, 46u8] + path.subrange(start as int, path.len() as int)
    }
}

proof fn lemma_boundary_at_or_above(bytes: Seq<u8>, n: nat)
    requires
        valid_utf8(bytes),
        n <= bytes.len(),
    ensures
        n <= boundary_at_or_above(bytes, n) <= bytes.len(),
        is_char_boundary(bytes, boundary_at_or_above(bytes, n) as int),
        forall|k: int|
            n <= k < boundary_at_or_above(bytes, n) ==> !#[trigger] is_char_boundary(bytes, k),
    decreases bytes.len() - n,
{
    if n < bytes.len() && !is_char_boundary(bytes, n as int) {
        lemma_boundary_at_or_above(bytes, n + 1);
    }
}

/// `path` shortened from the left so its UTF-8 encoding fits `capacity`
/// bytes, never splitting a code point.
pub fn truncate_path_from_left(path: &str, capacity: usize) -> (r: String)
    ensures
        encode_utf8(r@) == left_truncated(encode_utf8(path@), capacity as nat),
{
    let ghost bytes = encode_utf8(path@);
    let path_bytes = path.as_bytes();
    assert(path_bytes@ == bytes);
    if path_bytes.len() <= capacity {
        return owned(path);
    }
    if capacity <= 3 {
        let mut dots = String::new();
        proof {
            reveal_strlit(".");
            vstd::utf8::is_ascii_chars_encode_utf8("."@);
            assert(encode_utf8("."@) =~= seq![46u8]);
            assert(encode_utf8(dots@) =~= Seq::<u8>::empty()) by {
                assert(dots@ =~= Seq::<char>::empty());
            }
        }
        let mut i: usize = 0;
        while i < capacity
            invariant
                i <= capacity,
                encode_utf8("."@) == seq![46u8],
                encode_utf8(dots@) == Seq::new(i as nat, |k: int| 46u8),
            decreases capacity - i,
        {
            let ghost before = dots@;
            dots.append(".");
            proof {
                lemma_encode_utf8_concat(before, "."@);
            }
            i = i + 1;
            assert(encode_utf8(dots@) =~= Seq::new(i as nat, |k: int| 46u8));
        }
        return dots;
    }
    let suffix_capacity: usize = capacity - 3;
    let mut suffix_start: usize = path_bytes.len() - suffix_capacity;
    let ghost first: nat = suffix_start as nat;
    proof {
        lemma_boundary_at_or_above(bytes, first);
    }
    while !path.is_char_boundary(suffix_start)
        invariant
            first <= suffix_start <= bytes.len(),
            bytes.len() == path_bytes@.len(),
            path_bytes@.len() <= usize::MAX,
            bytes == path.spec_bytes(),
            boundary_at_or_above(bytes, first) == boundary_at_or_above(bytes, suffix_start as nat),
            is_char_boundary(bytes, bytes.len() as int),
        decreases bytes.len() - suffix_start,
    {
        suffix_start = suffix_start + 1;
    }
    let (_, tail) = path.split_at(suffix_start);
    let mut r = owned("...");
    r.append(tail);
    proof {
        reveal_strlit("...");
        lemma_encode_utf8_concat("..."@, tail@);
        vstd::utf8::is_ascii_chars_encode_utf8("..."@);
        assert(encode_utf8("..."@) =~= seq![46u8, 46u8, 46u8]);
        assert(encode_utf8(r@) =~= left_truncated(bytes, capacity as nat));
    }
    r
}

/// The message a seam with a live conversion record refuses with, in order:
/// `IMAS-MVDD:`, the reason, the DD path as the caller spelled it, then both
/// DD versions. When that does not fit, both versions are dropped together;
/// when the path alone still does not fit, it is shortened from the left.
pub open spec fn read_refusal_text(
    reason: Seq<char>,
    dd_path: Seq<char>,
    hli: Seq<char>,
    stored: Seq<char>,
) -> Seq<char> {
    let prefix = "IMAS-MVDD: "@ + reason + "; DD path: "@;
    let versions = "; HLI DD version: "@ + hli + "; stored DD version: "@ + stored;
    if byte_len(prefix + dd_path + versions) < MAX_ERR_MSG_LEN {
        prefix + dd_path + versions
    } else if byte_len(prefix + dd_path) < MAX_ERR_MSG_LEN {
        prefix + dd_path
    } else {
        let capacity: int = MAX_ERR_MSG_LEN - 1 - byte_len(prefix);
        let tail = left_truncated(
            encode_utf8(dd_path),
            if capacity < 0 {
                0
            } else {
                capacity as nat
            },
        );
        prefix + vstd::utf8::decode_utf8(tail)
    }
}

/// Builds the refusal message of a seam that has a DD path and both ends of
/// its version pair to name.
pub fn format_read_refusal_message(
    reason: &str,
    dd_path: &str,
    hli_version: &DdVersion,
    stored_version: &DdVersion,
) -> (r: String)
    ensures
        r@ == read_refusal_text(
            reason@,
            dd_path@,
            version_text(hli_version@),
            version_text(stored_version@),
        ),
{
    let ghost p = "IMAS-MVDD: "@ + reason@ + "; DD path: "@;
    let ghost v = "; HLI DD version: "@ + version_text(hli_version@) + "; stored DD version: "@
        + version_text(stored_version@);
    let mut prefix = owned("IMAS-MVDD: ");
    prefix.append(reason);
    prefix.append("; DD path: ");
    assert(prefix@ == p);
    let mut versions = owned("; HLI DD version: ");
    let hli = hli_version.text();
    versions.append(hli.as_str());
    versions.append("; stored DD version: ");
    let stored = stored_version.text();
    versions.append(stored.as_str());
    assert(versions@ == v);
    let mut full = prefix.clone();
    full.append(dd_path);
    let without_versions = full.clone();
    assert(without_versions@ == p + dd_path@);
    full.append(versions.as_str());
    assert(full@ == p + dd_path@ + v);
    if full.as_str().as_bytes().len() < MAX_ERR_MSG_LEN {
        return full;
    }
    if without_versions.as_str().as_bytes().len() < MAX_ERR_MSG_LEN {
        return without_versions;
    }
    let prefix_len = prefix.as_str().as_bytes().len();
    let path_capacity: usize = if prefix_len < MAX_ERR_MSG_LEN - 1 {
        MAX_ERR_MSG_LEN - 1 - prefix_len
    } else {
        0
    };
    let tail = truncate_path_from_left(dd_path, path_capacity);
    proof {
        vstd::utf8::encode_utf8_decode_utf8(tail@);
    }
    let mut r = prefix;
    r.append(tail.as_str());
    r
}

/// Left truncation always fits: what it keeps is at most `capacity` bytes
/// of valid UTF-8; a path that already fits is kept whole; otherwise, with
/// room for more than the ellipsis, it is `...` followed by the longest
/// suffix of the path that starts on a character boundary and fits.
pub proof fn law_left_truncation_fits(path: Seq<char>, capacity: nat)
    ensures
        ({
            let bytes = encode_utf8(path);
            let r = left_truncated(bytes, capacity);
            &&& r.len() <= capacity
            &&& valid_utf8(r)
            &&& bytes.len() <= capacity ==> r == bytes
            &&& (capacity > 3 && bytes.len() > capacity) ==> exists|start: int|
                #![trigger is_char_boundary(bytes, start)]
                {
                    &&& bytes.len() - (capacity - 3) <= start <= bytes.len()
                    &&& is_char_boundary(bytes, start)
                    &&& r == seq![46u8, 46u8, 46u8] + bytes.subrange(start, bytes.len() as int)
                    &&& forall|k: int|
                        bytes.len() - (capacity - 3) <= k < start ==> !#[trigger] is_char_boundary(
                            bytes,
                            k,
                        )
                }
        }),
{
    let bytes = encode_utf8(path);
    let r = left_truncated(bytes, capacity);
    if bytes.len() <= capacity {
    } else if capacity <= 3 {
        let dots = Seq::new(capacity, |i: int| 46u8);
        assert(valid_utf8(dots)) by {
            let chars = Seq::new(capacity, |i: int| '.');
            vstd::utf8::is_ascii_chars_encode_utf8(chars);
            assert(encode_utf8(chars) =~= dots);
        }
    } else {
        let n = (bytes.len() - (capacity - 3)) as nat;
        lemma_boundary_at_or_above(bytes, n);
        let start = boundary_at_or_above(bytes, n) as int;
        let tail = bytes.subrange(start, bytes.len() as int);
        vstd::utf8::valid_utf8_split(bytes, start);
        reveal_strlit("...");
        vstd::utf8::is_ascii_chars_encode_utf8("..."@);
        assert(encode_utf8("..."@) =~= seq![46u8, 46u8, 46u8]);
        vstd::utf8::valid_utf8_concat(seq![46u8, 46u8, 46u8], tail);
        assert(is_char_boundary(bytes, start));
    }
}

/// A refusal message always fits a status buffer with its NUL, provided
/// its fixed prefix (`IMAS-MVDD:`, the reason and `; DD path: `) does.
pub proof fn law_refusal_messages_fit(
    reason: Seq<char>,
    dd_path: Seq<char>,
    hli: Seq<char>,
    stored: Seq<char>,
)
    requires
        byte_len("IMAS-MVDD: "@ + reason + "; DD path: "@) < MAX_ERR_MSG_LEN,
    ensures
        byte_len(read_refusal_text(reason, dd_path, hli, stored)) < MAX_ERR_MSG_LEN,
{
    let prefix = "IMAS-MVDD: "@ + reason + "; DD path: "@;
    let versions = "; HLI DD version: "@ + hli + "; stored DD version: "@ + stored;
    if byte_len(prefix + dd_path + versions) < MAX_ERR_MSG_LEN {
    } else if byte_len(prefix + dd_path) < MAX_ERR_MSG_LEN {
    } else {
        let capacity = (MAX_ERR_MSG_LEN - 1 - byte_len(prefix)) as nat;
        let tail = left_truncated(encode_utf8(dd_path), capacity);
        law_left_truncation_fits(dd_path, capacity);
        vstd::utf8::decode_utf8_encode_utf8(tail);
        lemma_encode_utf8_concat(prefix, vstd::utf8::decode_utf8(tail));
    }
}

/// The refusal status of a seam that has a DD path and both versions to
/// name.
pub fn path_conversion_refusal(
    reason: &str,
    dd_path: &str,
    hli_version: &DdVersion,
    stored_version: &DdVersion,
) -> (r: al_status_t)
    ensures
        status_with(
            r,
            IMAS_MVDD_CONVERSION_ERROR,
            read_refusal_text(
                reason@,
                dd_path@,
                version_text(hli_version@),
                version_text(stored_version@),
            ),
        ),
{
    let message = format_read_refusal_message(reason, dd_path, hli_version, stored_version);
    status_from(IMAS_MVDD_CONVERSION_ERROR, message.as_str())
}

} // verus!
