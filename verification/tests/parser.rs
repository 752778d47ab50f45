use webvtt::parse_file;
use webvtt::parse_timestamp;
use webvtt::settings::parse_settings;
use webvtt::timing::parse_cue_timings_settings;
use webvtt::Block;
use webvtt::Error;
use webvtt::WritingDirection;

#[test]
fn timestamp() {
    let line = "00:31.500";
    let result = parse_timestamp(line);
    assert_eq!(result, Some((31_500, "")));

    let line = "2:31.500";
    let result = parse_timestamp(line);
    assert_eq!(result, None);

    let line = "02:31.500";
    let result = parse_timestamp(line);
    assert_eq!(result, Some((2 * 60_000 + 31_500, "")));

    let line = "02:31.500 -> 03:31.500";
    let result = parse_timestamp(line);
    assert_eq!(result, Some((2 * 60_000 + 31_500, " -> 03:31.500")));

    let line = "1:02:31.500";
    let result = parse_timestamp(line);
    assert_eq!(result, Some((1 * 3600_000 + 2 * 60_000 + 31_500, "")));

    let line = "11:02:31.500";
    let result = parse_timestamp(line);
    assert_eq!(result, Some((11 * 3600_000 + 2 * 60_000 + 31_500, "")));

    let line = "111:02:31.500";
    let result = parse_timestamp(line);
    assert_eq!(result, Some((111 * 3600_000 + 2 * 60_000 + 31_500, "")));

    let line = "11:11:02:31.500";
    let result = parse_timestamp(line);
    assert_eq!(result, None);

    let line = "111:11:02:31.500";
    let result = parse_timestamp(line);
    assert_eq!(result, None);

    let line = "02:02:31.5001";
    let result = parse_timestamp(line);
    assert_eq!(result, None);

    let line = "02:31.5001";
    let result = parse_timestamp(line);
    assert_eq!(result, None);
}

#[test]
fn sample1() {
    let sample = "WEBVTT - This file has cues.\n\n00:00:01.000 --> 00:00:02.000\nHello world\n\n00:00:03.000 --> 00:00:04.500 region:fred\nSecond cue\nwith two lines\n";
    let file = parse_file(sample).unwrap();
    println!("{file:#?}");
    // exactly one separator character is stripped from the signature line
    assert_eq!(file.description.as_deref(), Some("- This file has cues."));
    assert_eq!(file.blocks.len(), 2);
    let Block::Cue(first) = &file.blocks[0];
    assert_eq!(first.start, 1_000);
    assert_eq!(first.end, 2_000);
    assert_eq!(first.text, "Hello world");
    let Block::Cue(second) = &file.blocks[1];
    assert_eq!(second.start, 3_000);
    assert_eq!(second.end, 4_500);
    assert_eq!(second.text, "Second cue\nwith two lines");
    assert_eq!(second.settings.region.as_deref(), Some("fred"));
}

#[test]
fn sample2() {
    let sample = "WEBVTT\n\nNOTE this block is a comment and yields nothing\n\ngreeting\n00:00:01.000 --> 00:00:02.000\nHello\n\n00:01:00.000 --> 00:01:30.000 vertical:rl\nSideways\n";
    let file = parse_file(sample).unwrap();
    println!("{file:#?}");
    assert_eq!(file.description, None);
    assert_eq!(file.blocks.len(), 2);
    let Block::Cue(first) = &file.blocks[0];
    assert_eq!(first.id, "greeting");
    assert_eq!(first.text, "Hello");
    let Block::Cue(second) = &file.blocks[1];
    assert_eq!(second.start, 60_000);
    assert_eq!(second.end, 90_000);
    assert_eq!(
        second.settings.writing_direction,
        WritingDirection::VerticalRight
    );
    assert_eq!(second.settings.region, None);
}

#[test]
fn two_field_timestamps() {
    assert_eq!(parse_timestamp("59:59.999"), Some((59 * 60_000 + 59 * 1_000 + 999, "")));
    assert_eq!(parse_timestamp("00:00.000"), Some((0, "")));
    // the minutes-or-seconds fields must stay at or below 59
    assert_eq!(parse_timestamp("60:00.000"), None);
    assert_eq!(parse_timestamp("00:60.000"), None);
}

#[test]
fn hours_any_digit_count() {
    assert_eq!(
        parse_timestamp("9999:00:00.000"),
        Some((9999 * 3600_000, ""))
    );
    // a two-digit leading field worth more than 59 is an hours field, so a
    // third field is required
    assert_eq!(parse_timestamp("99:59.999"), None);
    assert_eq!(parse_timestamp("99:00:59.999"), Some((99 * 3600_000 + 59_999, "")));
}

#[test]
fn millis_exactly_three_digits() {
    assert_eq!(parse_timestamp("02:31.50"), None);
    assert_eq!(parse_timestamp("02:31.5001"), None);
    assert_eq!(parse_timestamp("02:31."), None);
}

#[test]
fn timestamp_remainder_untrimmed() {
    let result = parse_timestamp("02:31.500 settings here");
    assert_eq!(result, Some((151_500, " settings here")));
    let result = parse_timestamp("02:31.500x");
    assert_eq!(result, Some((151_500, "x")));
}

#[test]
fn timestamp_overflow_fails() {
    // the mathematical value exceeds what a u64 can hold
    assert_eq!(parse_timestamp("99999999999999999999:00:00.000"), None);
}

#[test]
fn timing_line() {
    let result = parse_cue_timings_settings("00:00:01.000 --> 00:00:02.000");
    let (start, end, settings) = result.unwrap();
    assert_eq!(start, 1_000);
    assert_eq!(end, 2_000);
    assert_eq!(settings.region, None);
    assert_eq!(settings.writing_direction, WritingDirection::Horizontal);

    // leading whitespace before each token is allowed
    let result = parse_cue_timings_settings("  00:00:01.000   -->\t00:00:02.000");
    assert!(result.is_some());

    // the arrow is required
    assert_eq!(parse_cue_timings_settings("00:00:01.000 -> 00:00:02.000"), None);
    // both timestamps are required
    assert_eq!(parse_cue_timings_settings("00:00:01.000 -->"), None);
}

#[test]
fn settings_tokens() {
    let settings = parse_settings(" region:fred");
    assert_eq!(settings.region.as_deref(), Some("fred"));
    assert_eq!(settings.writing_direction, WritingDirection::Horizontal);

    let settings = parse_settings(" vertical:lr");
    assert_eq!(settings.writing_direction, WritingDirection::VerticalLeft);

    // tokens without a colon, or with an empty key or value, or with an
    // unrecognized key or vertical value, are ignored
    let settings = parse_settings(" nonsense :x region: vertical:diagonal line:0");
    assert_eq!(settings.region, None);
    assert_eq!(settings.writing_direction, WritingDirection::Horizontal);

    // a later token wins
    let settings = parse_settings(" region:a region:b");
    assert_eq!(settings.region.as_deref(), Some("b"));
}

#[test]
fn vertical_clears_region() {
    let settings = parse_settings(" region:fred vertical:rl");
    assert_eq!(settings.writing_direction, WritingDirection::VerticalRight);
    assert_eq!(settings.region, None);
    // in either token order
    let settings = parse_settings(" vertical:lr region:fred");
    assert_eq!(settings.writing_direction, WritingDirection::VerticalLeft);
    assert_eq!(settings.region, None);
}

#[test]
fn round_trip_shape() {
    let file = parse_file("WEBVTT\n\n00:00:01.000 --> 00:00:02.000\nHello").unwrap();
    assert_eq!(file.description, None);
    assert_eq!(file.blocks.len(), 1);
    let Block::Cue(cue) = &file.blocks[0];
    assert_eq!(cue.start, 1_000);
    assert_eq!(cue.end, 2_000);
    assert_eq!(cue.id, "");
    assert_eq!(cue.text, "Hello");
    assert_eq!(cue.settings.region, None);
    assert_eq!(cue.settings.writing_direction, WritingDirection::Horizontal);
}

#[test]
fn cue_with_id() {
    let file = parse_file("WEBVTT\n\ngreeting\n00:00:01.000 --> 00:00:02.000\nbody text").unwrap();
    assert_eq!(file.blocks.len(), 1);
    let Block::Cue(cue) = &file.blocks[0];
    assert_eq!(cue.id, "greeting");
    assert_eq!(cue.text, "body text");
}

#[test]
fn timing_settings_on_cue() {
    let file =
        parse_file("WEBVTT\n\n00:00:01.000 --> 00:00:02.000 region:fred vertical:rl\nHi").unwrap();
    let Block::Cue(cue) = &file.blocks[0];
    assert_eq!(cue.settings.writing_direction, WritingDirection::VerticalRight);
    assert_eq!(cue.settings.region, None);
}

#[test]
fn missing_magic() {
    let result = parse_file("00:00:01.000 --> 00:00:02.000\nHello");
    assert_eq!(result.unwrap_err(), Error::NoMagic);
    let result = parse_file("");
    assert_eq!(result.unwrap_err(), Error::NoMagic);
    let result = parse_file("WEBVT\n");
    assert_eq!(result.unwrap_err(), Error::NoMagic);
}

#[test]
fn bad_header() {
    // the signature line may continue only after a space or tab
    let result = parse_file("WEBVTTx\n");
    assert_eq!(result.unwrap_err(), Error::BadHeader);
    let file = parse_file("WEBVTT\tdescription after a tab\n").unwrap();
    assert_eq!(file.description.as_deref(), Some("description after a tab"));
}

#[test]
fn unsupported_block_kinds() {
    let result = parse_file("WEBVTT\n\nSTYLE\n::cue { color: red }\n");
    assert_eq!(result.unwrap_err(), Error::Unimplemented);
    let result = parse_file("WEBVTT\n\nREGION\nid:fred\n");
    assert_eq!(result.unwrap_err(), Error::Unimplemented);
}

#[test]
fn error_messages() {
    assert_eq!(Error::NoMagic.message(), "missing file magic");
    assert_eq!(Error::BadHeader.message(), "bad file header");
    assert_eq!(Error::UnexpectedEof.message(), "unexpected end-of-file");
}

#[test]
fn unrecognized_blocks_dropped() {
    // a comment block, a malformed timing attempt and a bare text block all
    // yield nothing; the document still parses
    let file = parse_file(
        "WEBVTT\n\nNOTE a comment\nspanning two lines\n\n00:00:0x.000 --> 00:00:02.000\n\njust text\n",
    )
    .unwrap();
    assert_eq!(file.blocks.len(), 0);
}

#[test]
fn arrow_later_in_block_is_text() {
    // a timing line is recognized only on a block's first or second line
    let file = parse_file("WEBVTT\n\na\nb\n00:00:01.000 --> 00:00:02.000\n").unwrap();
    assert_eq!(file.blocks.len(), 0);
}

#[test]
fn id_comes_from_line_before_timing() {
    // the timing line on line two takes line one as the cue id
    let file = parse_file("WEBVTT\n\nsome id\n00:00:01.000 --> 00:00:02.000\ntext").unwrap();
    let Block::Cue(cue) = &file.blocks[0];
    assert_eq!(cue.id, "some id");
    assert_eq!(cue.text, "text");
}

#[test]
fn blank_lines_between_blocks() {
    let file = parse_file(
        "WEBVTT\n\n\n\n00:00:01.000 --> 00:00:02.000\nA\n\n\n00:00:03.000 --> 00:00:04.000\nB\n\n",
    )
    .unwrap();
    assert_eq!(file.blocks.len(), 2);
    let Block::Cue(first) = &file.blocks[0];
    assert_eq!(first.text, "A");
    let Block::Cue(second) = &file.blocks[1];
    assert_eq!(second.text, "B");
}

#[test]
fn signature_line_only() {
    let file = parse_file("WEBVTT").unwrap();
    assert_eq!(file.description, None);
    assert_eq!(file.blocks.len(), 0);
}
