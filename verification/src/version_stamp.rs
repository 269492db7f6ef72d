//! Decoding the DD-version stamp an occurrence carries at
//! `ids_properties/version_put/data_dictionary`.
//!
//! The stamp is decoded from exactly the bytes the read reported, never by
//! scanning for a NUL terminator: a CHAR_DATA buffer carries no guarantee
//! of one, and a stamp that happens to include one does not decode.
use vstd::prelude::*;
use vstd::utf8::{decode_utf8, valid_utf8};

use crate::dd_version::{parse_spec, DdVersion};
use crate::read_outcome::ReadOutcome;
use crate::status::{al_status_t, conversion_refusal, refusal_text, status_with, IMAS_MVDD_CONVERSION_ERROR};

verus! {

/// `std::str::from_utf8`: the text `bytes` spell, when they are valid UTF-8.
#[verifier::external_body]
fn utf8_text(bytes: &[u8]) -> (r: Option<&str>)
    ensures
        r is Some <==> valid_utf8(bytes@),
        r matches Some(s) ==> s@ == decode_utf8(bytes@),
{
    std::str::from_utf8(bytes).ok()
}

/// What a stamp's bytes decode to: the DD version they spell, when they are
/// valid UTF-8 and a valid DD version.
pub open spec fn decoded_stamp(bytes: Seq<u8>) -> Option<crate::dd_version::DdVersionView> {
    if valid_utf8(bytes) {
        match parse_spec(decode_utf8(bytes)) {
            Ok(v) => Some(v),
            Err(_) => None,
        }
    } else {
        None
    }
}

/// Decodes a CHAR_DATA stamp buffer into a [`DdVersion`], or `None` if it is
/// not valid UTF-8 or not a recognised DD-version spelling.
pub fn decode(bytes: &[u8]) -> (r: Option<DdVersion>)
    ensures
        r is Some <==> decoded_stamp(bytes@) is Some,
        r matches Some(v) ==> decoded_stamp(bytes@) == Some(v@),
{
    match utf8_text(bytes) {
        None => None,
        Some(text) => match DdVersion::parse(text) {
            Ok(v) => Some(v),
            Err(_) => None,
        },
    }
}

/// The classified result of one DD-version-stamp discovery read.
#[derive(Debug)]
pub enum StampOutcome {
    /// The stamp is absent, or the discovery read itself failed: a mismatch
    /// is asserted only from a present, valid stamp.
    Unstamped,
    /// A present, valid stamp naming the occurrence's stored DD version.
    Stored(DdVersion),
    /// A present stamp that is not valid UTF-8 or not a DD version: a hard
    /// refusal, distinct from the absent case.
    Malformed(Box<al_status_t>),
}

/// The reason a malformed stamp refuses with.
pub open spec fn malformed_reason() -> Seq<char> {
    "malformed DD-version stamp at 'ids_properties/version_put/data_dictionary'"@
}

/// The bytes a discovery read reported: the first `extent` of `bytes`, when
/// the extent is positive and within them.
pub open spec fn reported_bytes(bytes: Seq<u8>, extent: i32) -> Option<Seq<u8>> {
    let len: int = if extent > 0 {
        extent as int
    } else {
        0
    };
    if len <= bytes.len() {
        Some(bytes.subrange(0, len))
    } else {
        None
    }
}

/// Whether a discovery read is classified as `s`: a failed or absent read
/// is unstamped; returned data is the stored version it decodes to, or
/// malformed.
pub open spec fn discovery_agrees(
    s: StampOutcome,
    outcome: ReadOutcome,
    bytes: Seq<u8>,
    extent: i32,
) -> bool {
    match outcome {
        ReadOutcome::Data => {
            let decoded = match reported_bytes(bytes, extent) {
                Some(b) => decoded_stamp(b),
                None => None,
            };
            match decoded {
                Some(v) => s matches StampOutcome::Stored(w) && w@ == v,
                None => s matches StampOutcome::Malformed(status) && status_with(
                    *status,
                    IMAS_MVDD_CONVERSION_ERROR,
                    refusal_text(malformed_reason()),
                ),
            }
        },
        _ => s is Unstamped,
    }
}

/// Classifies a discovery read from its outcome and the bytes it reported:
/// only the first `reported_extent` bytes are decoded, and a non-positive
/// extent reports none.
pub fn classify_discovery_read(outcome: ReadOutcome, bytes: &[u8], reported_extent: i32) -> (r:
    StampOutcome)
    ensures
        discovery_agrees(r, outcome, bytes@, reported_extent),
{
    match outcome {
        ReadOutcome::Failure | ReadOutcome::NotFound => StampOutcome::Unstamped,
        ReadOutcome::Data => {
            let len: usize = if reported_extent > 0 {
                reported_extent as usize
            } else {
                0
            };
            let decoded = if len <= bytes.len() {
                let (head, _) = bytes.split_at(len);
                decode(head)
            } else {
                None
            };
            match decoded {
                Some(version) => StampOutcome::Stored(version),
                None => StampOutcome::Malformed(
                    Box::new(
                        conversion_refusal(
                            "malformed DD-version stamp at 'ids_properties/version_put/data_dictionary'",
                        ),
                    ),
                ),
            }
        },
    }
}

} // verus!
