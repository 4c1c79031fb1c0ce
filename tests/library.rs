use lrcplay::browser::{browsable, BrowserState, Key, Response, Step, PAGE_SIZE};
use lrcplay::lyrics::{char_delay, parse_timed_line, plan_lines, plan_playback, split_lines};
use lrcplay::session::{
    args_to_map, auto_lyrics, check_params, is_auto, lyrics_at, wait_step, Args, Browser,
    LookupError, WaitStep,
};
use lrcplay::text::{find_char, split_at_char};
use lrcplay::timestamp::{parse_field, parse_timestamp};

fn song(id: i64, instrumental: bool, lyrics: Option<&str>) -> Response {
    Response {
        id,
        track_name: format!("track {}", id),
        artist_name: "artist".to_string(),
        album_name: "album".to_string(),
        duration_ms: 180_000,
        instrumental,
        synced_lyrics: lyrics.map(|l| l.to_string()),
    }
}

#[test]
fn timestamp_minutes_seconds_hundredths() {
    assert_eq!(parse_timestamp("03:45.67"), 22567);
}

#[test]
fn timestamp_zero() {
    assert_eq!(parse_timestamp("00:00.00"), 0);
}

#[test]
fn timestamp_bad_hundredths_count_as_zero() {
    assert_eq!(parse_timestamp("01:02.ab"), 6200);
    assert_eq!(parse_timestamp("xx:02.50"), 250);
}

#[test]
fn timestamp_missing_separators() {
    assert_eq!(parse_timestamp("5"), 30000);
    assert_eq!(parse_timestamp("01:07"), 6700);
    assert_eq!(parse_timestamp(""), 0);
}

#[test]
fn timestamp_short_hundredths_field() {
    assert_eq!(parse_timestamp("00:01.5"), 105);
}

#[test]
fn field_parsing() {
    assert_eq!(parse_field("42"), 42);
    assert_eq!(parse_field("+12"), 12);
    assert_eq!(parse_field("+"), 0);
    assert_eq!(parse_field(""), 0);
    assert_eq!(parse_field("4294967295"), 4294967295);
    assert_eq!(parse_field("4294967296"), 0);
    assert_eq!(parse_field("1a"), 0);
}

#[test]
fn find_and_split() {
    assert_eq!(find_char("ab:cd", ':'), Some(2));
    assert_eq!(find_char("abcd", ':'), None);
    assert_eq!(split_at_char("ab:cd:e", ':'), ("ab", "cd:e"));
    assert_eq!(split_at_char("abc", ':'), ("abc", ""));
}

#[test]
fn lines_split_on_newlines() {
    assert_eq!(split_lines("a\r\nb\n"), vec!["a".to_string(), "b".to_string()]);
    assert_eq!(split_lines("a\n\nb"), vec!["a".to_string(), "".to_string(), "b".to_string()]);
    assert_eq!(split_lines(""), Vec::<String>::new());
    assert_eq!(split_lines("\n"), vec!["".to_string()]);
}

#[test]
fn timed_line_reads_tag_and_text() {
    let t = parse_timed_line("[00:12.34] Hello there").unwrap();
    assert_eq!(t.centis, 1234);
    assert_eq!(t.text, "Hello there");
}

#[test]
fn timed_line_without_tag() {
    assert!(parse_timed_line("just words").is_none());
    assert!(parse_timed_line("[0:12.34] short minutes").is_none());
    assert!(parse_timed_line("[00:12.34]").is_none());
}

#[test]
fn timed_line_keeps_one_character() {
    let t = parse_timed_line("[00:01.00]   ").unwrap();
    assert_eq!(t.text, " ");
}

#[test]
fn timed_line_tag_inside_line() {
    let t = parse_timed_line("xx[01:00.00]hi").unwrap();
    assert_eq!(t.centis, 6000);
    assert_eq!(t.text, "hi");
}

#[test]
fn delay_shared_over_characters() {
    let d = char_delay(1000, 1200, 8);
    assert_eq!(d, 250);
    assert_eq!(d * 8, 2000);
}

#[test]
fn delay_never_negative() {
    assert_eq!(char_delay(1200, 1000, 4), 0);
    assert_eq!(char_delay(100, 103, 0), 30);
}

#[test]
fn plan_of_two_timed_lines() {
    let p = plan_playback("[ti:Song]\n[00:10.00] abcdefgh\nno tag\n[00:12.00] next\n");
    assert_eq!(p.lead_in_centis, Some(1000));
    assert_eq!(p.lines.len(), 1);
    assert_eq!(p.lines[0].expected_centis, 1000);
    assert_eq!(p.lines[0].text, "abcdefgh");
    assert_eq!(p.lines[0].char_delay_ms, 250);
}

#[test]
fn plan_without_timed_lines() {
    let p = plan_playback("plain\ntext");
    assert_eq!(p.lead_in_centis, None);
    assert!(p.lines.is_empty());
}

#[test]
fn plan_from_line_list() {
    let lines = vec!["[00:00.50] ab".to_string(), "[00:01.00] c".to_string(), "[00:03.00] d".to_string()];
    let p = plan_lines(&lines);
    assert_eq!(p.lead_in_centis, Some(50));
    assert_eq!(p.lines.len(), 2);
    assert_eq!(p.lines[0].char_delay_ms, 250);
    assert_eq!(p.lines[1].text, "c");
    assert_eq!(p.lines[1].char_delay_ms, 2000);
}

#[test]
fn browsable_keeps_voiced_timed_results_in_order() {
    let rs = vec![
        song(1, false, Some("[00:01.00] a")),
        song(2, true, Some("[00:01.00] b")),
        song(3, false, None),
        song(4, false, Some("[00:01.00] d")),
        song(5, true, None),
    ];
    assert_eq!(browsable(&rs), vec![0, 3]);
}

#[test]
fn page_count_and_last_page() {
    let s = BrowserState::new(12, PAGE_SIZE);
    assert_eq!(s.page_total(), 3);
    let mut s = s;
    assert_eq!(s.handle_key(Key::Right), Step::Redraw);
    assert_eq!(s.handle_key(Key::Right), Step::Redraw);
    assert_eq!(s.page_range(), (10, 12));
    assert_eq!(BrowserState::new(10, 5).page_total(), 2);
    assert_eq!(BrowserState::new(1, 5).page_total(), 1);
}

#[test]
fn selection_stops_at_page_ends() {
    let mut s = BrowserState::new(7, PAGE_SIZE);
    assert_eq!(s.handle_key(Key::Up), Step::Unchanged);
    for _ in 0..4 {
        assert_eq!(s.handle_key(Key::Down), Step::Redraw);
    }
    assert_eq!(s.selected, 4);
    assert_eq!(s.handle_key(Key::Down), Step::Unchanged);
    assert_eq!(s.selected, 4);
    assert_eq!(s.handle_key(Key::Right), Step::Redraw);
    assert_eq!(s.selected, 0);
    assert_eq!(s.handle_key(Key::Down), Step::Redraw);
    assert_eq!(s.handle_key(Key::Down), Step::Unchanged);
    assert_eq!(s.selected, 1);
}

#[test]
fn page_turns_at_ends_do_nothing() {
    let mut s = BrowserState::new(6, PAGE_SIZE);
    assert_eq!(s.handle_key(Key::Left), Step::Unchanged);
    assert_eq!(s.handle_key(Key::Down), Step::Redraw);
    assert_eq!(s.handle_key(Key::Right), Step::Redraw);
    assert_eq!((s.page, s.selected), (1, 0));
    assert_eq!(s.handle_key(Key::Right), Step::Unchanged);
    assert_eq!(s.handle_key(Key::Left), Step::Redraw);
    assert_eq!((s.page, s.selected), (0, 0));
}

#[test]
fn enter_and_escape() {
    let mut s = BrowserState::new(8, PAGE_SIZE);
    s.handle_key(Key::Right);
    s.handle_key(Key::Down);
    assert_eq!(s.handle_key(Key::Enter), Step::Select(6));
    assert_eq!(s.handle_key(Key::Esc), Step::Abort);
    assert_eq!(s.handle_key(Key::Other), Step::Unchanged);
}

#[test]
fn browser_end_to_end_single_match() {
    let rs = vec![
        song(1, true, Some("[00:01.00] hum")),
        song(2, false, None),
        song(3, false, Some("[00:01.00] words")),
    ];
    let mut b = Browser::open(&rs).ok().unwrap();
    assert_eq!(b.entries.len(), 1);
    let step = b.handle_key(Key::Enter);
    assert_eq!(step, Step::Select(2));
    assert_eq!(lyrics_at(&rs, 2), "[00:01.00] words");
}

#[test]
fn browser_needs_a_match() {
    let rs = vec![song(1, true, Some("x")), song(2, false, None)];
    assert_eq!(Browser::open(&rs).err(), Some(LookupError::NoMatchingSongs));
    assert_eq!(Browser::open(&Vec::new()).err(), Some(LookupError::NoMatchingSongs));
}

#[test]
fn automatic_mode_choice() {
    assert_eq!(auto_lyrics(&Vec::new()), Err(LookupError::NoResults));
    let rs = vec![song(1, false, None), song(2, false, Some("y"))];
    assert_eq!(auto_lyrics(&rs), Err(LookupError::NoSyncedLyrics));
    let rs = vec![song(1, true, Some("x"))];
    assert_eq!(auto_lyrics(&rs), Ok("x".to_string()));
}

#[test]
fn error_messages() {
    assert_eq!(LookupError::NoResults.message(), "No result was found for the provided search.");
    assert_eq!(LookupError::NoSyncedLyrics.message(), "No synced lyrics found.");
    assert_eq!(LookupError::Aborted.message(), "User aborted");
}

#[test]
fn parameters_from_options() {
    let a = Args {
        title: Some("Song".to_string()),
        query: None,
        artist: Some("Band".to_string()),
        album: None,
        debug: false,
    };
    assert!(is_auto(&a));
    assert_eq!(
        args_to_map(&a),
        vec![("title".to_string(), "Song".to_string()), ("artist".to_string(), "Band".to_string())]
    );
    let b = Args { title: None, query: None, artist: None, album: Some("A".to_string()), debug: true };
    assert!(!is_auto(&b));
    assert_eq!(args_to_map(&b), vec![("album".to_string(), "A".to_string())]);
}

#[test]
fn query_and_track_name_refused() {
    let both = vec![("q".to_string(), "x".to_string()), ("track_name".to_string(), "y".to_string())];
    assert_eq!(check_params(&both), Err(LookupError::AmbiguousQuery));
    let one = vec![("q".to_string(), "x".to_string()), ("artist".to_string(), "y".to_string())];
    assert_eq!(check_params(&one), Ok(()));
    assert_eq!(check_params(&Vec::new()), Ok(()));
}

#[test]
fn wait_is_interruptible() {
    assert_eq!(wait_step(5, 100, Some('c')), WaitStep::Interrupted);
    assert_eq!(wait_step(5, 100, Some('x')), WaitStep::Poll);
    assert_eq!(wait_step(5, 100, None), WaitStep::Poll);
    assert_eq!(wait_step(100, 100, Some('c')), WaitStep::Done);
}
