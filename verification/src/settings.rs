//! The cue settings parser: the tail of a timing line is split into
//! space-separated `key:value` tokens; `region` and `vertical` are
//! recognized, everything else is ignored. This parser never fails.

use vstd::prelude::*;

use crate::text::find_char;
use crate::text::find_char_at;
use crate::text::spec_split;
use crate::text::split_char;
use crate::text::str_eq;
use crate::types::CueSettings;
use crate::types::SpecSettings;
use crate::types::WritingDirection;

verus! {

/// The settings record every parse starts from: no region, horizontal
/// writing direction.
pub open spec fn default_settings() -> SpecSettings {
    SpecSettings { region: None, writing_direction: WritingDirection::Horizontal }
}

/// One token applied to a settings record. A token without a colon, or
/// with an empty key or empty value, or with an unrecognized key or
/// `vertical` value, changes nothing; the split is on the first colon.
pub open spec fn apply_setting(st: SpecSettings, tok: Seq<char>) -> SpecSettings {
    let ci = find_char(tok, ':');
    if ci >= tok.len() {
        st
    } else {
        let key = tok.take(ci);
        let value = tok.skip(ci + 1);
        if key.len() == 0 || value.len() == 0 {
            st
        } else if key == "region"@ {
            SpecSettings { region: Some(value), writing_direction: st.writing_direction }
        } else if key == "vertical"@ {
            if value == "lr"@ {
                SpecSettings { region: st.region, writing_direction: WritingDirection::VerticalLeft }
            } else if value == "rl"@ {
                SpecSettings {
                    region: st.region,
                    writing_direction: WritingDirection::VerticalRight,
                }
            } else {
                st
            }
        } else {
            st
        }
    }
}

/// The tokens from index `i` on, applied in order to `st`.
pub open spec fn fold_settings(st: SpecSettings, toks: Seq<Seq<char>>, i: int) -> SpecSettings
    decreases toks.len() - i,
{
    if i < 0 || i >= toks.len() {
        st
    } else {
        fold_settings(apply_setting(st, toks[i]), toks, i + 1)
    }
}

/// What the settings parser returns for a timing-line tail: each
/// space-separated token applied in order, and then the region cleared if
/// the writing direction ended up vertical — there are no vertical regions.
pub open spec fn settings_spec(s: Seq<char>) -> SpecSettings {
    let st = fold_settings(default_settings(), spec_split(s, ' '), 0);
    if st.writing_direction != WritingDirection::Horizontal {
        SpecSettings { region: None, writing_direction: st.writing_direction }
    } else {
        st
    }
}

/// Parses cue settings from the tail of a timing line. Unrecognized tokens
/// are ignored, so this is a total function.
pub fn parse_settings(line: &str) -> (r: CueSettings)
    ensures
        r@ == settings_spec(line@),
{
    let toks = split_char(line, ' ');
    let ghost stoks = spec_split(line@, ' ');
    let mut settings = CueSettings { region: None, writing_direction: WritingDirection::Horizontal };
    let mut i: usize = 0;
    while i < toks.len()
        invariant
            0 <= i <= toks.len(),
            toks.deep_view() == stoks,
            toks@.len() == stoks.len(),
            fold_settings(settings@, stoks, i as int) == fold_settings(
                default_settings(),
                stoks,
                0,
            ),
        decreases toks.len() - i,
    {
        let ghost pre = settings@;
        let tok: &String = &toks[i];
        proof {
            assert(stoks[i as int] == tok@);
        }
        let n = tok.as_str().unicode_len();
        let ci = find_char_at(tok.as_str(), ':');
        if ci < n {
            let key = tok.as_str().substring_char(0, ci);
            let value = tok.as_str().substring_char(ci + 1, n);
            proof {
                assert(key@ =~= stoks[i as int].take(ci as int));
                assert(value@ =~= stoks[i as int].skip(ci as int + 1));
            }
            if !key.is_empty() && !value.is_empty() {
                if str_eq(key, "region") {
                    settings.region = Some(value.to_owned());
                } else if str_eq(key, "vertical") {
                    if str_eq(value, "lr") {
                        settings.writing_direction = WritingDirection::VerticalLeft;
                    } else if str_eq(value, "rl") {
                        settings.writing_direction = WritingDirection::VerticalRight;
                    }
                }
            }
        }
        proof {
            assert(settings@ == apply_setting(pre, stoks[i as int]));
        }
        i += 1;
    }
    match settings.writing_direction {
        WritingDirection::Horizontal => {},
        _ => {
            settings.region = None;
        },
    }
    settings
}

} // verus!
