//! The app-version stamp of a recording directory, parsed from its
//! `major.minor.patch-build` form, and the phone-model pair stored
//! beside it. Walking the directory tree itself is the embedding
//! program's concern.

use crate::text::first_index_of;
use crate::text::spec_parse_u8;
use crate::text::spec_split;
use vstd::prelude::*;

verus! {

/// A four-part application version: `major.minor.patch-build`.
#[derive(Debug, Clone, Copy, PartialEq, Eq, Hash, Structural)]
pub struct AppVersion {
    pub major: u8,
    pub minor: u8,
    pub patch: u8,
    pub build: u8,
}

/// Error of the version parsing.
#[derive(Debug, Clone, Copy, PartialEq, Eq, Structural)]
pub struct ParseAppVersionError;

/// The phone a recording was made on.
#[derive(Debug, Clone, PartialEq, Eq, Hash)]
pub struct PhoneModel {
    pub brand: String,
    pub model: String,
}

/// Error of the recording-directory-name parsing.
#[derive(Debug, Clone, Copy, PartialEq, Eq, Structural)]
pub struct ParseFlexDataDirNameError;

/// The version a `major.minor.patch-build` string denotes: the first
/// two dot-separated parts and the dash-separated halves of the third
/// must each be a `u8`; further dot-parts are ignored.
pub open spec fn spec_parse_app_version(s: Seq<char>) -> Option<AppVersion> {
    let parts = spec_split(s, '.');
    if parts.len() < 3 {
        None
    } else {
        let third = parts[2];
        let di = first_index_of(third, '-');
        if di < 0 {
            None
        } else {
            let major = spec_parse_u8(parts[0]);
            let minor = spec_parse_u8(parts[1]);
            let patch = spec_parse_u8(third.take(di));
            let build = spec_parse_u8(third.skip(di + 1));
            if major is Some && minor is Some && patch is Some && build is Some {
                Some(
                    AppVersion {
                        major: major->Some_0,
                        minor: minor->Some_0,
                        patch: patch->Some_0,
                        build: build->Some_0,
                    },
                )
            } else {
                None
            }
        }
    }
}

impl AppVersion {
    /// Parses a `major.minor.patch-build` version stamp; any malformed
    /// or out-of-range part is rejected.
    pub fn from_str(s: &str) -> (r: Result<AppVersion, ParseAppVersionError>)
        ensures
            match spec_parse_app_version(s@) {
                Some(v) => r == Ok::<AppVersion, ParseAppVersionError>(v),
                None => r == Err::<AppVersion, ParseAppVersionError>(ParseAppVersionError),
            },
    {
        let parts = crate::text::split_char(s, '.');
        if parts.len() < 3 {
            return Err(ParseAppVersionError);
        }
        let third: &String = &parts[2];
        let di = match crate::text::find_char(third.as_str(), '-') {
            Some(i) => i,
            None => {
                return Err(ParseAppVersionError);
            },
        };
        proof {
            assert(0 <= first_index_of(third@, '-') < third@.len()) by {
                lemma_first_index_bounds(third@, '-');
            }
        }
        let tlen = third.as_str().unicode_len();
        let patch_str = third.as_str().substring_char(0, di);
        let build_str = third.as_str().substring_char(di + 1, tlen);
        let major = crate::text::parse_u8_digits(parts[0].as_str());
        let minor = crate::text::parse_u8_digits(parts[1].as_str());
        let patch = crate::text::parse_u8_digits(patch_str);
        let build = crate::text::parse_u8_digits(build_str);
        proof {
            assert(patch_str@ =~= spec_split(s@, '.')[2].take(
                first_index_of(spec_split(s@, '.')[2], '-'),
            ));
            assert(build_str@ =~= spec_split(s@, '.')[2].skip(
                first_index_of(spec_split(s@, '.')[2], '-') + 1,
            ));
        }
        match (major, minor, patch, build) {
            (Some(major), Some(minor), Some(patch), Some(build)) => Ok(
                AppVersion { major, minor, patch, build },
            ),
            _ => Err(ParseAppVersionError),
        }
    }
}

/// A found occurrence lies inside the string.
proof fn lemma_first_index_bounds(s: Seq<char>, c: char)
    ensures
        first_index_of(s, c) < s.len(),
        first_index_of(s, c) >= -1,
    decreases s.len(),
{
    if s.len() > 0 && s[0] != c {
        lemma_first_index_bounds(s.drop_first(), c);
    }
}

} // verus!
