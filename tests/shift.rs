use yass::codec::{ms2str, str2ms};
use yass::grammar::Grammar;
use yass::offset::{parse_offset, OffsetMode};
use yass::rewrite::{grammar_for_extension, shift_line, LineError, Resolver};

fn run(expr: &str, ext: &str, text: &str) -> Result<String, LineError> {
    let g = grammar_for_extension(ext).unwrap();
    let mut r = Resolver::new(parse_offset(expr).unwrap());
    let mut out = Vec::new();
    for line in text.split('\n') {
        out.push(r.rewrite_line(g, line)?);
    }
    Ok(out.join("\n"))
}

#[test]
fn canonical_text_round_trips() {
    for s in ["01:02:03,456", "00:00:00,000", "123:59:59,999"] {
        let v = str2ms(s).unwrap();
        assert_eq!(ms2str(v, ','), s);
    }
    assert_eq!(str2ms("01:02:03,456"), Some(3723456));
}

#[test]
fn zero_offset_keeps_timestamps() {
    let text = "1\n00:00:05,000 --> 00:00:07,500\nHello";
    assert_eq!(run("+00:00:00,000", "srt", text).unwrap(), text);
    let dia = "Dialogue: 0,0:00:05.00,0:00:07.50,Style,Text";
    assert_eq!(run("+00:00:00,000", "ass", dia).unwrap(), dia);
}

#[test]
fn shift_and_shift_back() {
    let line = "00:01:05,123 --> 00:01:07,999 tail";
    let there = shift_line(Grammar::SequentialBlock, line, 3_600_250).unwrap();
    assert_eq!(there, "01:01:05,373 --> 01:01:08,249 tail");
    let back = shift_line(Grammar::SequentialBlock, &there, -3_600_250).unwrap();
    assert_eq!(back, line);
    let dia = "Dialogue: 0,0:01:05.12,0:01:07.99,Default,,Hi";
    let there = shift_line(Grammar::TaggedDialogue, dia, 1230).unwrap();
    let back = shift_line(Grammar::TaggedDialogue, &there, -1230).unwrap();
    assert_eq!(there, "Dialogue: 0,0:01:06.35,0:01:09.22,Default,,Hi");
    assert_eq!(back, dia);
}

#[test]
fn anchor_mode_moves_first_event_and_keeps_delta() {
    assert_eq!(parse_offset("00:00:10,000"), Some(OffsetMode::AnchorAt(10000)));
    let mut r = Resolver::new(OffsetMode::AnchorAt(10000));
    let first = r.rewrite_line(Grammar::SequentialBlock, "00:00:05,000 --> 00:00:06,000").unwrap();
    assert_eq!(first, "00:00:10,000 --> 00:00:11,000");
    assert_eq!(r.delta, Some(5000));
    let second = r.rewrite_line(Grammar::SequentialBlock, "00:00:08,000 --> 00:00:09,000").unwrap();
    assert_eq!(second, "00:00:13,000 --> 00:00:14,000");
    assert_eq!(r.delta, Some(5000));
}

#[test]
fn centiseconds_truncate() {
    assert_eq!(ms2str(1234, '.'), "0:00:01.23");
    assert_eq!(ms2str(1239, '.'), "0:00:01.23");
    assert_eq!(ms2str(36_001_234, '.'), "10:00:01.23");
    assert_eq!(ms2str(1234, ','), "00:00:01,234");
}

#[test]
fn sequential_block_scenario() {
    let out = run("+00:00:02,000", "srt", "1\n00:00:05,000 --> 00:00:07,500\nHello").unwrap();
    assert_eq!(out, "1\n00:00:07,000 --> 00:00:09,500\nHello");
}

#[test]
fn tagged_dialogue_scenario() {
    let out = run("-0:00:01,000", "ass", "Dialogue: 0,0:00:05.00,0:00:07.50,Style,Text").unwrap();
    assert_eq!(out, "Dialogue: 0,0:00:04.00,0:00:06.50,Style,Text");
}

#[test]
fn lines_without_pair_pass_through() {
    for line in ["", "Hello, world", "42", "00:00:05,000 -> 00:00:07,000", "Comment: 0,0:00:05.00,0:00:07.50,x"] {
        assert_eq!(shift_line(Grammar::SequentialBlock, line, 1000).unwrap(), line);
        assert_eq!(shift_line(Grammar::TaggedDialogue, line, 1000).unwrap(), line);
    }
    let mut r = Resolver::new(OffsetMode::AnchorAt(10000));
    assert_eq!(r.rewrite_line(Grammar::SequentialBlock, "1").unwrap(), "1");
    assert_eq!(r.delta, None);
}

#[test]
fn unsupported_extension_is_refused() {
    assert_eq!(grammar_for_extension("txt"), None);
    assert_eq!(grammar_for_extension("SRT"), None);
    assert_eq!(grammar_for_extension(""), None);
    assert_eq!(grammar_for_extension("srt"), Some(Grammar::SequentialBlock));
    assert_eq!(grammar_for_extension("ass"), Some(Grammar::TaggedDialogue));
}

#[test]
fn fraction_precision_by_digit_count() {
    assert_eq!(str2ms("0:00:05.50"), Some(5500));
    assert_eq!(str2ms("0:00:05,50"), Some(5500));
    assert_eq!(str2ms("0:00:05.500"), Some(5500));
    assert_eq!(str2ms("0:00:05.5"), Some(5000));
    assert_eq!(str2ms("0:00:05.5000"), Some(5000));
    assert_eq!(str2ms("1:2:3"), Some(3723000));
}

#[test]
fn malformed_timestamps_do_not_read() {
    assert_eq!(str2ms("1:2"), None);
    assert_eq!(str2ms("1::2:3"), None);
    assert_eq!(str2ms("1:2:3:4:5"), None);
    assert_eq!(str2ms("a:00:00"), None);
    assert_eq!(str2ms("596:31:23,647"), Some(2147483647));
    assert_eq!(str2ms("596:31:23,648"), None);
    assert_eq!(str2ms("99999999999999999999:00:00"), None);
}

#[test]
fn offset_expressions() {
    assert_eq!(parse_offset("+00:00:02,000"), Some(OffsetMode::Shift(2000)));
    assert_eq!(parse_offset("-0:00:01,000"), Some(OffsetMode::Shift(-1000)));
    assert_eq!(parse_offset("+01:02:03"), Some(OffsetMode::Shift(3723000)));
    assert_eq!(parse_offset("-01:02:03,04"), Some(OffsetMode::Shift(-3723040)));
    assert_eq!(parse_offset("01:02:03,04"), Some(OffsetMode::AnchorAt(3723040)));
    assert_eq!(parse_offset("+1:2:3.4"), None);
    assert_eq!(parse_offset("abc"), None);
    assert_eq!(parse_offset("+"), None);
    assert_eq!(parse_offset("1:2"), None);
    assert_eq!(parse_offset("1:2:3,"), None);
    assert_eq!(parse_offset("x1:2:3"), None);
}

#[test]
fn timestamp_out_of_range_fails_the_line() {
    let line = "999:00:00,000 --> 999:00:01,000";
    assert_eq!(shift_line(Grammar::SequentialBlock, line, 0), Err(LineError::TimestampOutOfRange));
    let mut r = Resolver::new(OffsetMode::AnchorAt(0));
    assert_eq!(r.rewrite_line(Grammar::SequentialBlock, line), Err(LineError::TimestampOutOfRange));
    assert_eq!(r.delta, None);
}

#[test]
fn negative_times_are_written_part_by_part() {
    assert_eq!(ms2str(-500, ','), "00:00:00,-500");
    assert_eq!(ms2str(-61_005, ','), "00:-1:-1,-05");
    assert_eq!(ms2str(-3_600_000, '.'), "-1:00:00.00");
    let out = shift_line(Grammar::SequentialBlock, "00:00:01,000 --> 00:00:02,000", -1500).unwrap();
    assert_eq!(out, "00:00:00,-500 --> 00:00:00,500");
}

#[test]
fn other_marker_keeps_milliseconds() {
    assert_eq!(ms2str(3_723_456, ';'), "01:02:03;456");
}

#[test]
fn leftmost_block_pair_is_rewritten() {
    let line = "x 00:00:01,000   -->\t00:00:02,000 and 00:00:03,000 --> 00:00:04,000";
    let out = shift_line(Grammar::SequentialBlock, line, 1000).unwrap();
    assert_eq!(out, "x 00:00:02,000 --> 00:00:03,000 and 00:00:03,000 --> 00:00:04,000");
    let pre = "100:00:01.5 --> 0:0:2,25";
    assert_eq!(shift_line(Grammar::SequentialBlock, pre, 0).unwrap(), "100:00:01,000 --> 00:00:02,250");
}

#[test]
fn last_dialogue_pair_is_rewritten() {
    let line = "Dialogue : 0,0:00:01.00,0:00:02.00,Default,0:00:03.00,0:00:04.00,end";
    let out = shift_line(Grammar::TaggedDialogue, line, 10).unwrap();
    assert_eq!(out, "Dialogue : 0,0:00:01.00,0:00:02.00,Default,0:00:03.01,0:00:04.01,end");
    let before_tag = "0,0:00:01.00,0:00:02.00,Dialogue:x";
    assert_eq!(shift_line(Grammar::TaggedDialogue, before_tag, 10).unwrap(), before_tag);
}

#[test]
fn anchor_mode_on_dialogue_lines() {
    let text = "Dialogue: 0,0:00:05.00,0:00:06.00,S,A\nDialogue: 0,0:00:08.00,0:00:09.00,S,B";
    let out = run("00:00:10,000", "ass", text).unwrap();
    assert_eq!(out, "Dialogue: 0,0:00:10.00,0:00:11.00,S,A\nDialogue: 0,0:00:13.00,0:00:14.00,S,B");
}

#[test]
fn dialogue_trailing_fields_are_kept() {
    let line = "Dialogue: 0,0:00:05.00,0:00:07.50,Default,,0,0,0,,Hi, there";
    let out = shift_line(Grammar::TaggedDialogue, line, 500).unwrap();
    assert_eq!(out, "Dialogue: 0,0:00:05.50,0:00:08.00,Default,,0,0,0,,Hi, there");
}

#[test]
fn surrounding_whitespace_is_ignored() {
    assert_eq!(str2ms(" 1:2:3"), Some(3723000));
    assert_eq!(str2ms(" 00:00:05,000 "), Some(5000));
    assert_eq!(str2ms("00:00:05,000\n"), Some(5000));
    assert_eq!(str2ms("\u{a0}\t0:00:05.50\u{3000}"), Some(5500));
    assert_eq!(str2ms("   "), None);
    assert_eq!(str2ms(""), None);
    assert_eq!(str2ms("0:00: 05"), None);
}

#[test]
fn unicode_spaces_around_the_arrow() {
    let line = "00:00:01,000\u{a0}-->\u{2003}00:00:02,000";
    let out = shift_line(Grammar::SequentialBlock, line, 1000).unwrap();
    assert_eq!(out, "00:00:02,000 --> 00:00:03,000");
}
