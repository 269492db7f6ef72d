//! Deciding whether a resolved IMAS-Core may serve this shim.
//!
//! Only the major version gates: a mismatch there means the ABI itself may
//! disagree, so resolution fails; minor and patch drift is tolerated and
//! reported. A failure status names the override variable first, so that
//! truncating an overlong detail never drops it.
use vstd::prelude::*;

use crate::dd_version::is_digit;
use crate::status::{al_status_t, status_with};
use crate::text::{chars_between, chars_eq, chars_of, find_char, first_index, owned, str_eq};

verus! {

/// The environment variable that pins the IMAS-Core library to load.
pub const CORE_LIBRARY_ENV_VAR: &'static str = "IMAS_CORE_LIBRARY";

/// The library IMAS-Core is opened from: the override verbatim when one is
/// set, else the bare soname `dll_prefix` + `al` + `dll_suffix`, which the
/// platform loader finds on its own search path. Never a path baked in at
/// build time.
pub fn library_path(override_value: Option<&str>, dll_prefix: &str, dll_suffix: &str) -> (r: String)
    ensures
        r@ == match override_value {
            Some(v) => v@,
            None => dll_prefix@ + "al"@ + dll_suffix@,
        },
{
    match override_value {
        Some(value) => owned(value),
        None => {
            let mut name = owned(dll_prefix);
            name.append("al");
            name.append(dll_suffix);
            name
        },
    }
}

/// A tolerated difference between the IMAS-Core version this shim was built
/// against and the one found.
#[derive(Debug, PartialEq, Eq)]
pub struct VersionDrift {
    pub built_against: String,
    pub found: String,
}

/// `v` up to its first `.`, or all of `v`.
pub open spec fn first_segment(v: Seq<char>) -> Seq<char> {
    match first_index(v, '.') {
        Some(i) => v.subrange(0, i),
        None => v,
    }
}

/// The major component of a version: its first `.`-separated segment, when
/// that is one or more ASCII digits.
pub open spec fn major_of(v: Seq<char>) -> Option<Seq<char>> {
    let m = first_segment(v);
    if m.len() > 0 && forall|i: int| 0 <= i < m.len() ==> is_digit(#[trigger] m[i]) {
        Some(m)
    } else {
        None
    }
}

/// What comparing the built-against and found versions decides: no drift,
/// a tolerated drift naming both, or the reason resolution must fail.
pub open spec fn major_check(built: Seq<char>, found: Seq<char>) -> Result<
    Option<(Seq<char>, Seq<char>)>,
    Seq<char>,
> {
    match (major_of(built), major_of(found)) {
        (Some(b), Some(f)) => if b == f {
            if built != found {
                Ok(Some((built, found)))
            } else {
                Ok(None)
            }
        } else {
            Err(
                "IMAS-Core major version mismatch: shim built against "@ + built + ", found "@
                    + found,
            )
        },
        _ => Err(
            "could not compare IMAS-Core versions: shim built against '"@ + built
                + "', found '"@ + found + "'"@,
        ),
    }
}

pub open spec fn drift_view(r: Result<Option<VersionDrift>, String>) -> Result<
    Option<(Seq<char>, Seq<char>)>,
    Seq<char>,
> {
    match r {
        Ok(Some(d)) => Ok(Some((d.built_against@, d.found@))),
        Ok(None) => Ok(None),
        Err(e) => Err(e@),
    }
}

/// The major component of `version`.
pub fn major_component(version: &str) -> (r: Option<Vec<char>>)
    ensures
        match r {
            Some(m) => major_of(version@) == Some(m@),
            None => major_of(version@) is None,
        },
{
    let chars = chars_of(version);
    let major = match find_char(&chars, '.') {
        Some(i) => chars_between(&chars, 0, i),
        None => chars_between(&chars, 0, chars.len()),
    };
    assert(major@ == first_segment(version@)) by {
        assert(chars@.subrange(0, chars@.len() as int) =~= chars@);
    }
    if major.len() == 0 {
        return None;
    }
    let mut i: usize = 0;
    while i < major.len()
        invariant
            i <= major@.len(),
            major@ == first_segment(version@),
            forall|k: int| 0 <= k < i ==> is_digit(#[trigger] major@[k]),
        decreases major@.len() - i,
    {
        let c = major[i];
        if !('0' <= c && c <= '9') {
            assert(!is_digit(major@[i as int]));
            return None;
        }
        i = i + 1;
    }
    Some(major)
}

/// Compares the IMAS-Core version this shim was built against with the one
/// a resolved library reports.
pub fn check_major_version(built_against: &str, found: &str) -> (r: Result<
    Option<VersionDrift>,
    String,
>)
    ensures
        drift_view(r) == major_check(built_against@, found@),
{
    let built_major = major_component(built_against);
    let found_major = major_component(found);
    match (built_major, found_major) {
        (Some(b), Some(f)) => {
            if chars_eq(&b, &f) {
                if !str_eq(built_against, found) {
                    return Ok(
                        Some(VersionDrift { built_against: owned(built_against), found: owned(found) }),
                    );
                }
                Ok(None)
            } else {
                let mut m = owned("IMAS-Core major version mismatch: shim built against ");
                m.append(built_against);
                m.append(", found ");
                m.append(found);
                Err(m)
            }
        },
        _ => {
            let mut m = owned("could not compare IMAS-Core versions: shim built against '");
            m.append(built_against);
            m.append("', found '");
            m.append(found);
            m.append("'");
            Err(m)
        },
    }
}

/// The message of a failure to resolve IMAS-Core: the override variable
/// first, then the detail.
pub open spec fn failure_text(detail: Seq<char>) -> Seq<char> {
    "override with $IMAS_CORE_LIBRARY if this is wrong; "@ + detail
}

/// A failure status for resolving IMAS-Core: a non-zero code and a message
/// naming the override variable and then the underlying problem, truncated
/// to fit.
pub fn failure(detail: &str) -> (r: al_status_t)
    ensures
        status_with(r, -1i32, failure_text(detail@)),
{
    let mut message = owned("override with $IMAS_CORE_LIBRARY if this is wrong; ");
    message.append(detail);
    crate::status::status_from(-1, message.as_str())
}

/// The name IMAS-Core's pinned constant table gives `id`, empty for an id
/// it does not name.
pub open spec fn constant_name_spec(id: i32) -> Seq<char> {
    if id == 10 {
        "NO_BACKEND"@
    } else if id == 11 {
        "ASCII_BACKEND"@
    } else if id == 12 {
        "MDSPLUS_BACKEND"@
    } else if id == 13 {
        "HDF5_BACKEND"@
    } else if id == 14 {
        "MEMORY_BACKEND"@
    } else if id == 15 {
        "UDA_BACKEND"@
    } else if id == 20 {
        "GLOBAL_OP"@
    } else if id == 21 {
        "SLICE_OP"@
    } else if id == 30 {
        "READ_OP"@
    } else if id == 31 {
        "WRITE_OP"@
    } else if id == 32 {
        "REPLACE_OP"@
    } else if id == 0 {
        "UNDEFINED_INTERP"@
    } else if id == 1 {
        "CLOSEST_INTERP"@
    } else if id == 2 {
        "PREVIOUS_INTERP"@
    } else if id == 3 {
        "LINEAR_INTERP"@
    } else if id == -999 {
        "UNDEFINED_TIME"@
    } else if id == 40 {
        "OPEN_PULSE"@
    } else if id == 41 {
        "FORCE_OPEN_PULSE"@
    } else if id == 42 {
        "CREATE_PULSE"@
    } else if id == 43 {
        "FORCE_CREATE_PULSE"@
    } else if id == 44 {
        "CLOSE_PULSE"@
    } else if id == 45 {
        "ERASE_PULSE"@
    } else if id == 50 {
        "CHAR_DATA"@
    } else if id == 51 {
        "INTEGER_DATA"@
    } else if id == 52 {
        "DOUBLE_DATA"@
    } else if id == 53 {
        "COMPLEX_DATA"@
    } else if id == 60 {
        "ASCII_SERIALIZER_PROTOCOL"@
    } else if id == 61 {
        "FLEXBUFFERS_SERIALIZER_PROTOCOL"@
    } else {
        Seq::empty()
    }
}

/// The name IMAS-Core's pinned constant table gives `id`, served when the
/// resolved library's own table cannot be trusted.
pub fn constant_name(id: i32) -> (r: &'static str)
    ensures
        r@ == constant_name_spec(id),
{
    let r = match id {
        10 => "NO_BACKEND",
        11 => "ASCII_BACKEND",
        12 => "MDSPLUS_BACKEND",
        13 => "HDF5_BACKEND",
        14 => "MEMORY_BACKEND",
        15 => "UDA_BACKEND",
        20 => "GLOBAL_OP",
        21 => "SLICE_OP",
        30 => "READ_OP",
        31 => "WRITE_OP",
        32 => "REPLACE_OP",
        0 => "UNDEFINED_INTERP",
        1 => "CLOSEST_INTERP",
        2 => "PREVIOUS_INTERP",
        3 => "LINEAR_INTERP",
        -999 => "UNDEFINED_TIME",
        40 => "OPEN_PULSE",
        41 => "FORCE_OPEN_PULSE",
        42 => "CREATE_PULSE",
        43 => "FORCE_CREATE_PULSE",
        44 => "CLOSE_PULSE",
        45 => "ERASE_PULSE",
        50 => "CHAR_DATA",
        51 => "INTEGER_DATA",
        52 => "DOUBLE_DATA",
        53 => "COMPLEX_DATA",
        60 => "ASCII_SERIALIZER_PROTOCOL",
        61 => "FLEXBUFFERS_SERIALIZER_PROTOCOL",
        _ => "",
    };
    proof {
        assert(""@ =~= Seq::<char>::empty()) by {
            reveal_strlit("");
        }
    }
    r
}

/// The name IMAS-Core's pinned error table gives `id`, empty for an id it
/// does not name.
pub open spec fn error_name_spec(id: i32) -> Seq<char> {
    if id == -1 {
        "UNKNOWN_ERR"@
    } else if id == -2 {
        "CONTEXT_ERR"@
    } else if id == -3 {
        "BACKEND_ERR"@
    } else if id == -4 {
        "LOWLEVEL_ERR"@
    } else {
        Seq::empty()
    }
}

/// The name IMAS-Core's pinned error table gives `id`.
pub fn error_name(id: i32) -> (r: &'static str)
    ensures
        r@ == error_name_spec(id),
{
    let r = match id {
        -1 => "UNKNOWN_ERR",
        -2 => "CONTEXT_ERR",
        -3 => "BACKEND_ERR",
        -4 => "LOWLEVEL_ERR",
        _ => "",
    };
    proof {
        assert(""@ =~= Seq::<char>::empty()) by {
            reveal_strlit("");
        }
    }
    r
}

} // verus!
