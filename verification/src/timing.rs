//! The cue timing parser: a `<start> --> <end> <settings>` line is turned
//! into two timestamps and a settings record.

use vstd::prelude::*;

use crate::settings::parse_settings;
use crate::settings::settings_spec;
use crate::text::has_prefix;
use crate::text::has_prefix_spec;
use crate::text::trim_len;
use crate::text::trim_start;
use crate::timestamp::parse_timestamp;
use crate::timestamp::ts_spec;
use crate::types::CueSettings;
use crate::types::SpecSettings;

verus! {

/// What the cue timing parser returns for a candidate line: a start
/// timestamp, the literal `-->`, and an end timestamp, each preceded by
/// optional whitespace; the rest of the line is worth its settings. `None`
/// when the line is not shaped like that, or a timestamp value does not fit
/// in a `u64`.
pub open spec fn timings_spec(line: Seq<char>) -> Option<(u64, u64, SpecSettings)> {
    let s1 = line.skip(trim_len(line));
    match ts_spec(s1) {
        None => None,
        Some(st) => if st.0 > u64::MAX {
            None
        } else {
            let s2 = s1.skip(st.1);
            let s3 = s2.skip(trim_len(s2));
            if !has_prefix_spec(s3, "-->"@) {
                None
            } else {
                let s4 = s3.skip("-->"@.len() as int);
                let s5 = s4.skip(trim_len(s4));
                match ts_spec(s5) {
                    None => None,
                    Some(en) => if en.0 > u64::MAX {
                        None
                    } else {
                        Some((st.0 as u64, en.0 as u64, settings_spec(s5.skip(en.1))))
                    },
                }
            }
        },
    }
}

/// Parses a cue timing line: start timestamp, `-->`, end timestamp,
/// settings. `None` means the line is not a timing line; that is not an
/// error, the block merely yields no cue.
pub fn parse_cue_timings_settings(line: &str) -> (r: Option<(u64, u64, CueSettings)>)
    ensures
        match r {
            Some(t) => timings_spec(line@) matches Some(ts) && t.0 == ts.0 && t.1 == ts.1 && t.2@
                == ts.2,
            None => timings_spec(line@) is None,
        },
{
    let s1 = trim_start(line);
    let start_ms: u64;
    let rest1: &str;
    match parse_timestamp(s1) {
        Some(p) => {
            start_ms = p.0;
            rest1 = p.1;
        },
        None => {
            return None;
        },
    }
    let s3 = trim_start(rest1);
    if !has_prefix(s3, "-->") {
        return None;
    }
    let m = "-->".unicode_len();
    let n3 = s3.unicode_len();
    let s4 = s3.substring_char(m, n3);
    proof {
        assert(s4@ =~= s3@.skip("-->"@.len() as int));
    }
    let s5 = trim_start(s4);
    let end_ms: u64;
    let rest2: &str;
    match parse_timestamp(s5) {
        Some(p) => {
            end_ms = p.0;
            rest2 = p.1;
        },
        None => {
            return None;
        },
    }
    let settings = parse_settings(rest2);
    Some((start_ms, end_ms, settings))
}

} // verus!
