//! The settings of the operator and what holds without them.

use vstd::prelude::*;

use crate::text::{decimal, law_value_of_decimal, parse_u64, unsigned_value};

verus! {

/// A setting that may be absent, as a plain sequence.
pub open spec fn setting_text(setting: Option<&str>) -> Option<Seq<char>> {
    match setting {
        Some(text) => Some(text@),
        None => None,
    }
}

/// The number of threads that a setting asks for.
pub open spec fn threads_of(setting: Option<Seq<char>>) -> Option<usize> {
    match setting {
        None => Some(3usize),
        Some(text) => match unsigned_value(text) {
            Some(value) if value <= usize::MAX => Some(value as usize),
            _ => None,
        },
    }
}

/// The URL that a setting gives.
pub open spec fn url_of(setting: Option<Seq<char>>) -> Seq<char> {
    match setting {
        None => "http://127.0.0.1:5001"@,
        Some(text) => text,
    }
}

/// The number of machines that may run at a time: three where nothing is set, and none where the
/// setting is no number that fits.
pub fn max_threads_number(setting: Option<&str>) -> (number: Option<usize>)
    ensures
        number == threads_of(setting_text(setting)),
        setting is None ==> number == Some(3usize),
        setting matches Some(text) ==> match unsigned_value(text@) {
            Some(value) if value <= usize::MAX => number == Some(value as usize),
            _ => number is None,
        },
{
    match setting {
        None => Some(3),
        Some(text) => match parse_u64(text) {
            Some(value) => if value <= usize::MAX as u64 {
                Some(value as usize)
            } else {
                None
            },
            None => None,
        },
    }
}

/// Where the API of the IPFS node is: on this host where nothing is set.
pub fn ipfs_url(setting: Option<&str>) -> (url: String)
    ensures
        url@ == url_of(setting_text(setting)),
        setting is None ==> url@ == "http://127.0.0.1:5001"@,
        setting matches Some(text) ==> url@ == text@,
{
    match setting {
        None => "http://127.0.0.1:5001".to_owned(),
        Some(text) => text.to_owned(),
    }
}

/// A setting is taken as it is written. A number that was written in decimal comes back as that
/// number where it fits and is refused where it does not, and a URL comes back unchanged, whatever
/// it is. Only a setting that is absent stands for three threads and the node on this host.
pub proof fn law_settings_are_taken_as_written(number: nat, text: &str)
    ensures
        threads_of(Some(decimal(number))) == (if number <= usize::MAX {
            Some(number as usize)
        } else {
            None
        }),
        threads_of(None) == Some(3usize),
        threads_of(setting_text(Some(text))) is Some <==> {
            &&& unsigned_value(text@) is Some
            &&& unsigned_value(text@)->0 <= usize::MAX
        },
        threads_of(setting_text(Some(text))) matches Some(threads) ==> Some(threads as nat)
            == unsigned_value(text@),
        url_of(setting_text(Some(text))) == text@,
        url_of(setting_text(None)) == "http://127.0.0.1:5001"@,
{
    law_value_of_decimal(number);
}

} // verus!
