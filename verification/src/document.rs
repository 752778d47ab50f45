//! The document driver and the block recognizer: the input is split into
//! lines, the signature line is checked and the optional description taken
//! from it, and then blocks — groups of consecutive non-blank lines — are
//! recognized one after the other until the lines are exhausted.

use vstd::prelude::*;
use vstd::slice::slice_index_get;

use crate::text::has_prefix;
use crate::text::has_prefix_spec;
use crate::text::contains_seq;
use crate::text::spec_contains;
use crate::text::spec_split;
use crate::text::split_char;
use crate::text::lemma_split_len;
use crate::timing::parse_cue_timings_settings;
use crate::timing::timings_spec;
use crate::types::Block;
use crate::types::Cue;
use crate::types::Error;
use crate::types::File;
use crate::types::SpecBlock;
use crate::types::SpecCue;
use crate::types::SpecFile;

verus! {

/// The view of a candidate cue under construction.
pub open spec fn opt_cue_view(c: Option<Cue>) -> Option<SpecCue> {
    match c {
        Some(cue) => Some(cue@),
        None => None,
    }
}

/// The view of a recognizer result.
pub open spec fn opt_block_view(b: Option<Block>) -> Option<SpecBlock> {
    match b {
        Some(block) => Some(block@),
        None => None,
    }
}

/// A line appended to the text buffer: lines are joined by a single
/// newline, and there is no leading or trailing newline.
pub open spec fn append_line(buffer: Seq<char>, line: Seq<char>) -> Seq<char> {
    if buffer.len() == 0 {
        line
    } else {
        buffer + "\n"@ + line
    }
}

/// What a finished block is worth: the candidate cue with its text set to
/// the final buffer contents, or nothing when no timing line was
/// recognized.
pub open spec fn block_finish(cue: Option<SpecCue>, buffer: Seq<char>) -> Option<SpecBlock> {
    match cue {
        Some(c) => Some(
            SpecBlock::Cue(
                SpecCue {
                    start: c.start,
                    end: c.end,
                    id: c.id,
                    text: buffer,
                    settings: c.settings,
                },
            ),
        ),
        None => None,
    }
}

/// One block's recognition, stepping line by line from index `i`. The
/// carried state is the count of lines already consumed in this block
/// (`lc`), whether a timing line was already recognized (`seen_arrow`), the
/// candidate cue, and the accumulated text buffer. The result is the
/// finished block (if any) and the index of the first line after the block,
/// or the unsupported-block signal.
///
/// A line holding `-->` is a timing candidate only on the block's first
/// line, or on its second when the first was not one; elsewhere it is
/// ordinary text. A failed timing candidate is discarded entirely. A blank
/// line ends the block and is consumed; end of input ends it too. A second
/// line of text is inspected for the unsupported STYLE/REGION block kinds
/// while no cue has been seen in the document.
pub open spec fn block_loop(
    lines: Seq<Seq<char>>,
    i: int,
    lc: int,
    seen_arrow: bool,
    cue: Option<SpecCue>,
    buffer: Seq<char>,
    in_header: bool,
    seen_cue: bool,
) -> Result<(Option<SpecBlock>, int), Error>
    decreases lines.len() - i,
{
    if i < 0 || i >= lines.len() {
        Ok((block_finish(cue, buffer), i))
    } else {
        let line = lines[i];
        let lc1 = lc + 1;
        if spec_contains(line, "-->"@) && !in_header && (lc1 == 1 || (lc1 == 2 && !seen_arrow)) {
            match timings_spec(line) {
                Some(t) => block_loop(
                    lines,
                    i + 1,
                    lc1,
                    true,
                    Some(
                        SpecCue {
                            start: t.0,
                            end: t.1,
                            id: buffer,
                            text: Seq::empty(),
                            settings: t.2,
                        },
                    ),
                    Seq::empty(),
                    in_header,
                    seen_cue,
                ),
                None => block_loop(lines, i + 1, lc1, true, cue, buffer, in_header, seen_cue),
            }
        } else if line.len() == 0 {
            Ok((block_finish(cue, buffer), i + 1))
        } else if !in_header && lc1 == 2 && !seen_cue && (has_prefix_spec(buffer, "STYLE"@)
            || has_prefix_spec(buffer, "REGION"@)) {
            Err(Error::Unimplemented)
        } else {
            block_loop(
                lines,
                i + 1,
                lc1,
                seen_arrow,
                cue,
                append_line(buffer, line),
                in_header,
                seen_cue,
            )
        }
    }
}

/// What the block recognizer returns when started at line `pos`.
pub open spec fn block_spec(
    lines: Seq<Seq<char>>,
    pos: int,
    in_header: bool,
    seen_cue: bool,
) -> Result<(Option<SpecBlock>, int), Error> {
    block_loop(lines, pos, 0, false, None, Seq::empty(), in_header, seen_cue)
}

/// The recognizer consumes at least one line and never runs past the end.
pub proof fn lemma_block_loop_advances(
    lines: Seq<Seq<char>>,
    i: int,
    lc: int,
    seen_arrow: bool,
    cue: Option<SpecCue>,
    buffer: Seq<char>,
    in_header: bool,
    seen_cue: bool,
)
    requires
        0 <= i <= lines.len(),
    ensures
        block_loop(lines, i, lc, seen_arrow, cue, buffer, in_header, seen_cue) matches Ok(r) ==> i
            <= r.1 <= lines.len() && (i < lines.len() ==> i < r.1),
    decreases lines.len() - i,
{
    if i < lines.len() {
        let line = lines[i];
        let lc1 = lc + 1;
        if spec_contains(line, "-->"@) && !in_header && (lc1 == 1 || (lc1 == 2 && !seen_arrow)) {
            match timings_spec(line) {
                Some(t) => {
                    lemma_block_loop_advances(
                        lines,
                        i + 1,
                        lc1,
                        true,
                        Some(
                            SpecCue {
                                start: t.0,
                                end: t.1,
                                id: buffer,
                                text: Seq::empty(),
                                settings: t.2,
                            },
                        ),
                        Seq::empty(),
                        in_header,
                        seen_cue,
                    );
                },
                None => {
                    lemma_block_loop_advances(
                        lines,
                        i + 1,
                        lc1,
                        true,
                        cue,
                        buffer,
                        in_header,
                        seen_cue,
                    );
                },
            }
        } else if line.len() == 0 {
        } else if !in_header && lc1 == 2 && !seen_cue && (has_prefix_spec(buffer, "STYLE"@)
            || has_prefix_spec(buffer, "REGION"@)) {
        } else {
            lemma_block_loop_advances(
                lines,
                i + 1,
                lc1,
                seen_arrow,
                cue,
                append_line(buffer, line),
                in_header,
                seen_cue,
            );
        }
    }
}

/// The index of the first non-blank line at or after `pos`, or the number
/// of lines when all the rest are blank.
pub open spec fn skip_blanks_spec(lines: Seq<Seq<char>>, pos: int) -> int
    decreases lines.len() - pos,
{
    if pos < 0 || pos >= lines.len() {
        pos
    } else if lines[pos].len() == 0 {
        skip_blanks_spec(lines, pos + 1)
    } else {
        pos
    }
}

pub proof fn lemma_skip_blanks_bounds(lines: Seq<Seq<char>>, pos: int)
    requires
        0 <= pos <= lines.len(),
    ensures
        pos <= skip_blanks_spec(lines, pos) <= lines.len(),
    decreases lines.len() - pos,
{
    if pos < lines.len() && lines[pos].len() == 0 {
        lemma_skip_blanks_bounds(lines, pos + 1);
    }
}

/// The blocks recognized from line `pos` (a non-blank position or the end)
/// to the end of the document, in order, with blank lines between blocks
/// skipped; or the first unsupported-block signal.
pub open spec fn blocks_spec(lines: Seq<Seq<char>>, pos: int) -> Result<Seq<SpecBlock>, Error>
    decreases lines.len() - pos,
{
    if pos < 0 || pos >= lines.len() {
        Ok(Seq::empty())
    } else {
        match block_spec(lines, pos, false, false) {
            Err(e) => Err(e),
            Ok(r) => {
                let pos3 = skip_blanks_spec(lines, r.1);
                proof {
                    lemma_block_loop_advances(
                        lines,
                        pos,
                        0,
                        false,
                        None,
                        Seq::empty(),
                        false,
                        false,
                    );
                    lemma_skip_blanks_bounds(lines, r.1);
                }
                match blocks_spec(lines, pos3) {
                    Err(e) => Err(e),
                    Ok(rest) => Ok(
                        match r.0 {
                            Some(b) => seq![b] + rest,
                            None => rest,
                        },
                    ),
                }
            },
        }
    }
}

/// What parsing a whole document is worth: the signature line must begin
/// with `WEBVTT`; any continuation must be separated by one space or tab
/// and becomes the description; the remaining lines are recognized as
/// blocks with blank lines skipped between them.
pub open spec fn file_spec(input: Seq<char>) -> Result<SpecFile, Error> {
    let lines = spec_split(input, '\n');
    let line0 = lines[0];
    if !has_prefix_spec(line0, "WEBVTT"@) {
        Err(Error::NoMagic)
    } else {
        let rest = line0.skip("WEBVTT"@.len() as int);
        if rest.len() > 0 && !(rest[0] == ' ' || rest[0] == '\t') {
            Err(Error::BadHeader)
        } else {
            let description = if rest.len() > 0 {
                Some(rest.skip(1))
            } else {
                None
            };
            match blocks_spec(lines, skip_blanks_spec(lines, 1)) {
                Ok(blocks) => Ok(SpecFile { description, blocks }),
                Err(e) => Err(e),
            }
        }
    }
}

/// A document whose first line does not begin with the `WEBVTT` signature
/// fails with the missing-magic error, whatever the rest of its content.
pub proof fn lemma_no_magic(input: Seq<char>)
    requires
        !has_prefix_spec(spec_split(input, '\n')[0], "WEBVTT"@),
    ensures
        file_spec(input) == Err::<SpecFile, Error>(Error::NoMagic),
{
}

/// Strips `pattern` from the start of `input`, or returns `error` when it
/// is not there.
pub fn expect_str<'a>(input: &'a str, pattern: &str, error: Error) -> (r: Result<&'a str, Error>)
    ensures
        match r {
            Ok(rest) => has_prefix_spec(input@, pattern@) && rest@ == input@.skip(
                pattern@.len() as int,
            ),
            Err(e) => e == error && !has_prefix_spec(input@, pattern@),
        },
{
    if has_prefix(input, pattern) {
        let n = input.unicode_len();
        let m = pattern.unicode_len();
        let rest = input.substring_char(m, n);
        proof {
            assert(rest@ =~= input@.skip(pattern@.len() as int));
        }
        Ok(rest)
    } else {
        Err(error)
    }
}

/// Strips one character out of `pattern` from the start of `input`, or
/// returns `error` when the first character is not one of them.
pub fn expect_char<'a>(input: &'a str, pattern: &[char], error: Error) -> (r: Result<
    &'a str,
    Error,
>)
    ensures
        match r {
            Ok(rest) => input@.len() > 0 && pattern@.contains(input@[0]) && rest@ == input@.skip(1),
            Err(e) => e == error && !(input@.len() > 0 && pattern@.contains(input@[0])),
        },
{
    let n = input.unicode_len();
    if n == 0 {
        return Err(error);
    }
    let c = input.get_char(0);
    let mut i: usize = 0;
    while i < pattern.len()
        invariant
            0 <= i <= pattern@.len(),
            c == input@[0],
            0 < n == input@.len(),
            forall|k: int| 0 <= k < i ==> pattern@[k] != c,
        decreases pattern@.len() - i,
    {
        if *slice_index_get(pattern, i) == c {
            let rest = input.substring_char(1, n);
            proof {
                assert(pattern@.contains(c));
                assert(rest@ =~= input@.skip(1));
            }
            return Ok(rest);
        }
        i += 1;
    }
    proof {
        assert(!pattern@.contains(c));
    }
    Err(error)
}

/// Advances `pos` past blank lines; stops at the first non-blank line or
/// the end.
pub fn skip_blank_lines(lines: &Vec<String>, pos: &mut usize)
    requires
        *old(pos) <= lines@.len(),
    ensures
        *final(pos) as int == skip_blanks_spec(lines.deep_view(), *old(pos) as int),
        *old(pos) <= *final(pos) <= lines@.len(),
{
    let ghost dv = lines.deep_view();
    let ghost p0 = *pos as int;
    loop
        invariant
            p0 <= *pos as int <= lines@.len(),
            dv == lines.deep_view(),
            dv.len() == lines@.len(),
            skip_blanks_spec(dv, p0) == skip_blanks_spec(dv, *pos as int),
        ensures
            *pos as int == skip_blanks_spec(dv, p0),
        decreases lines@.len() - *pos,
    {
        if *pos >= lines.len() {
            break;
        }
        proof {
            assert(dv[*pos as int] == lines@[*pos as int]@);
        }
        if !lines[*pos].as_str().is_empty() {
            break;
        }
        *pos += 1;
    }
}

/// Recognizes one block starting at `pos`: consumes lines through the next
/// blank line or the end of input, and returns the block those lines make,
/// if any. `in_header` is reserved for header-block support and is always
/// false here; `seen_cue` gates the STYLE/REGION inspection.
pub fn parse_block(lines: &Vec<String>, pos: &mut usize, in_header: bool, seen_cue: bool) -> (r:
    Result<Option<Block>, Error>)
    requires
        *old(pos) <= lines@.len(),
    ensures
        ({
            let r0 = block_spec(lines.deep_view(), *old(pos) as int, in_header, seen_cue);
            match r {
                Ok(ob) => r0 matches Ok(rr) && opt_block_view(ob) == rr.0 && *final(pos) as int
                    == rr.1,
                Err(e) => r0 == Err::<(Option<SpecBlock>, int), Error>(e),
            }
        }),
        *old(pos) <= *final(pos) <= lines@.len(),
{
    let ghost dv = lines.deep_view();
    let ghost p0 = *pos as int;
    let mut lc: usize = 0;
    let mut seen_arrow = false;
    let mut cue: Option<Cue> = None;
    let mut buffer = String::new();
    loop
        invariant_except_break
            block_loop(dv, p0, 0, false, None, Seq::empty(), in_header, seen_cue) == block_loop(
                dv,
                *pos as int,
                lc as int,
                seen_arrow,
                opt_cue_view(cue),
                buffer@,
                in_header,
                seen_cue,
            ),
        invariant
            p0 == *old(pos) as int,
            p0 <= *pos as int <= lines@.len(),
            lc as int <= *pos as int - p0,
            dv == lines.deep_view(),
            dv.len() == lines@.len(),
        ensures
            p0 == *old(pos) as int,
            p0 <= *pos as int <= lines@.len(),
            block_loop(dv, p0, 0, false, None, Seq::empty(), in_header, seen_cue) == Ok::<
                _,
                Error,
            >((block_finish(opt_cue_view(cue), buffer@), *pos as int)),
        decreases lines@.len() - *pos,
    {
        if *pos >= lines.len() {
            break;
        }
        let line: &String = &lines[*pos];
        proof {
            assert(dv[*pos as int] == line@);
        }
        let ghost pre_pos = *pos as int;
        let ghost pre_buffer = buffer@;
        *pos += 1;
        lc += 1;
        let is_arrow = contains_seq(line.as_str(), "-->");
        if is_arrow && !in_header && (lc == 1 || (lc == 2 && !seen_arrow)) {
            seen_arrow = true;
            match parse_cue_timings_settings(line.as_str()) {
                Some(t) => {
                    let id = buffer;
                    buffer = String::new();
                    cue = Some(
                        Cue { start: t.0, end: t.1, id, text: String::new(), settings: t.2 },
                    );
                },
                None => {},
            }
        } else if line.as_str().is_empty() {
            break;
        } else {
            if !in_header && lc == 2 && !seen_cue {
                if has_prefix(buffer.as_str(), "STYLE") || has_prefix(buffer.as_str(), "REGION") {
                    return Err(Error::Unimplemented);
                }
            }
            if !buffer.as_str().is_empty() {
                buffer.append("\n");
            }
            buffer.append(line.as_str());
            proof {
                assert(buffer@ == append_line(pre_buffer, dv[pre_pos]));
            }
        }
    }
    match cue {
        Some(c) => {
            let mut done = c;
            done.text = buffer;
            Ok(Some(Block::Cue(done)))
        },
        None => Ok(None),
    }
}

/// Parses a complete WebVTT document.
///
/// Fails with [`Error::NoMagic`] when the first line does not begin with
/// `WEBVTT`, with [`Error::BadHeader`] when that line continues without a
/// space or tab separator, and with [`Error::Unimplemented`] when a STYLE
/// or REGION block stands before any cue. Every other shape of content is
/// accepted: blocks that are not recognized as cues are dropped.
///
/// A known limitation kept from the design: the flag that is meant to
/// record that a cue was already seen is never set, so the STYLE/REGION
/// inspection stays active for later blocks too.
#[verifier::loop_isolation(false)]
pub fn parse_file(input: &str) -> (r: Result<File, Error>)
    ensures
        match r {
            Ok(f) => file_spec(input@) matches Ok(sf) && f@ == sf,
            Err(e) => file_spec(input@) == Err::<SpecFile, Error>(e),
        },
{
    let lines = split_char(input, '\n');
    let ghost dv = lines.deep_view();
    proof {
        lemma_split_len(input@, '\n');
        assert(dv.len() == lines@.len());
        assert(dv[0] == lines@[0]@);
    }
    let first: &String = &lines[0];
    let line0 = match expect_str(first.as_str(), "WEBVTT", Error::NoMagic) {
        Ok(rest) => rest,
        Err(e) => {
            return Err(e);
        },
    };
    let description: Option<String>;
    if line0.unicode_len() > 0 {
        let mut seps: Vec<char> = Vec::new();
        seps.push(' ');
        seps.push('\t');
        proof {
            assert(seps@.len() == 2 && seps@[0] == ' ' && seps@[1] == '\t');
            if line0@[0] == ' ' {
                assert(seps@.contains(line0@[0]));
            }
            if line0@[0] == '\t' {
                assert(seps@.contains(line0@[0]));
            }
        }
        match expect_char(line0, seps.as_slice(), Error::BadHeader) {
            Ok(rest) => {
                proof {
                    let k = choose|k: int| 0 <= k < seps@.len() && seps@[k] == line0@[0];
                    assert(k == 0 || k == 1);
                }
                description = Some(rest.to_owned());
            },
            Err(e) => {
                return Err(e);
            },
        }
    } else {
        description = None;
    }
    let mut pos: usize = 1;
    skip_blank_lines(&lines, &mut pos);
    let mut blocks: Vec<Block> = Vec::new();
    proof {
        assert(blocks.deep_view() =~= Seq::<SpecBlock>::empty());
        match blocks_spec(dv, pos as int) {
            Ok(rest) => {
                assert(blocks.deep_view() + rest =~= rest);
            },
            Err(_) => {},
        }
    }
    while pos < lines.len()
        invariant
            1 <= pos <= lines@.len(),
            dv == lines.deep_view(),
            dv.len() == lines@.len(),
            ({
                match blocks_spec(dv, pos as int) {
                    Ok(rest) => blocks_spec(dv, skip_blanks_spec(dv, 1)) == Ok::<_, Error>(
                        blocks.deep_view() + rest,
                    ),
                    Err(e) => blocks_spec(dv, skip_blanks_spec(dv, 1)) == Err::<
                        Seq<SpecBlock>,
                        Error,
                    >(e),
                }
            }),
        decreases lines@.len() - pos,
    {
        let ghost pre_pos = pos as int;
        let ghost pre_blocks = blocks.deep_view();
        proof {
            lemma_block_loop_advances(dv, pre_pos, 0, false, None, Seq::empty(), false, false);
        }
        let ob = match parse_block(&lines, &mut pos, false, false) {
            Ok(ob) => ob,
            Err(e) => {
                return Err(e);
            },
        };
        match ob {
            Some(b) => {
                let ghost bv = b@;
                blocks.push(b);
                proof {
                    assert(blocks.deep_view() =~= pre_blocks + seq![bv]);
                }
            },
            None => {},
        }
        skip_blank_lines(&lines, &mut pos);
        proof {
            match blocks_spec(dv, pos as int) {
                Ok(rest) => {
                    match block_spec(dv, pre_pos, false, false) {
                        Ok(rr) => {
                            match rr.0 {
                                Some(sb) => {
                                    assert(pre_blocks + (seq![sb] + rest) =~= blocks.deep_view()
                                        + rest);
                                },
                                None => {},
                            }
                        },
                        Err(_) => {},
                    }
                },
                Err(_) => {},
            }
        }
    }
    proof {
        assert(blocks.deep_view() + Seq::<SpecBlock>::empty() =~= blocks.deep_view());
    }
    Ok(File { description, blocks })
}

} // verus!
