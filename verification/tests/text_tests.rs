use sova_desktop::markdown::{is_runnable, split_markdown, MdPiece};
use sova_desktop::sequencer::{current_repetition, parse_inline_repetitions, truncate_to_lines};
use sova_desktop::session::{push_recent_scene, resolve_default_language, username_hue};
use sova_desktop::text::{decimal_string, parse_unsigned_chars};

fn piece_text(md: &str, start: usize, end: usize) -> String {
    md.chars().skip(start).take(end - start).collect()
}

#[test]
fn untagged_and_matching_blocks_run_other_tags_do_not() {
    assert!(is_runnable("", "bali"));
    assert!(is_runnable("  BALI ", "bali"));
    assert!(is_runnable("forth", "cagire"));
    assert!(!is_runnable("forth", "bali"));
    assert!(!is_runnable("text", "bali"));
    assert!(!is_runnable("output", "cagire"));
}

#[test]
fn markdown_splits_into_prose_and_code_blocks() {
    let md = "Intro\n```bali\nplay 1\n```\nOutro";
    let pieces = split_markdown(md);
    assert_eq!(pieces.len(), 3);
    match pieces[0] {
        MdPiece::Prose { start, end } => assert_eq!(piece_text(md, start, end), "Intro\n"),
        _ => panic!("expected prose"),
    }
    match pieces[1] {
        MdPiece::Code { info_start, info_end, code_start, code_end } => {
            assert_eq!(piece_text(md, info_start, info_end), "bali");
            assert_eq!(piece_text(md, code_start, code_end), "play 1");
        }
        _ => panic!("expected code"),
    }
    match pieces[2] {
        MdPiece::Prose { start, end } => assert_eq!(piece_text(md, start, end), "Outro"),
        _ => panic!("expected prose"),
    }
}

#[test]
fn an_unclosed_block_runs_to_the_end_and_blank_prose_is_dropped() {
    let md = "  \n```\nx\ny\n";
    let pieces = split_markdown(md);
    assert_eq!(pieces.len(), 1);
    match pieces[0] {
        MdPiece::Code { info_start, info_end, code_start, code_end } => {
            assert_eq!(info_start, info_end);
            assert_eq!(piece_text(md, code_start, code_end), "x\ny");
        }
        _ => panic!("expected code"),
    }
    // a fence whose line never ends is skipped
    let md = "abc```";
    let pieces = split_markdown(md);
    assert_eq!(pieces, vec![MdPiece::Prose { start: 0, end: 3 }]);
}

#[test]
fn previews_are_cut_at_the_last_kept_line_break() {
    assert_eq!(truncate_to_lines("a\nb\nc\nd", 2), ("a\nb".to_string(), 2));
    assert_eq!(truncate_to_lines("a\nb", 3), ("a\nb".to_string(), 0));
    assert_eq!(truncate_to_lines("a\nb", 1), ("a".to_string(), 1));
    assert_eq!(truncate_to_lines("a\nb", 0), ("a\nb".to_string(), 2));
}

#[test]
fn repetitions_are_read_trimmed_and_at_least_one() {
    assert_eq!(parse_inline_repetitions(" 4 "), Some(4));
    assert_eq!(parse_inline_repetitions("0"), Some(1));
    assert_eq!(parse_inline_repetitions("+7"), Some(7));
    assert_eq!(parse_inline_repetitions("-1"), None);
    assert_eq!(parse_inline_repetitions("3x"), None);
    assert_eq!(parse_inline_repetitions(""), None);
}

#[test]
fn numbers_read_back_what_they_write() {
    for n in [0usize, 7, 10, 16, 12345] {
        let s: Vec<char> = decimal_string(n).chars().collect();
        assert_eq!(parse_unsigned_chars(&s, usize::MAX), Some(n));
    }
    let big: Vec<char> = "65536".chars().collect();
    assert_eq!(parse_unsigned_chars(&big, 65535), None);
    assert_eq!(decimal_string(409), "409");
}

#[test]
fn the_current_repetition_is_the_highest_among_heads_on_the_frame() {
    let heads = vec![(1, 2), (0, 5), (1, 3), (2, 9)];
    assert_eq!(current_repetition(Some(&heads), 1), Some(3));
    assert_eq!(current_repetition(Some(&heads), 4), None);
    assert_eq!(current_repetition(None, 1), None);
}

#[test]
fn recent_scenes_put_the_newest_first_without_repeats_and_keep_ten() {
    let mut recent: Vec<String> = (0..10).map(|i| format!("s{i}")).collect();
    push_recent_scene(&mut recent, "s5".to_string());
    assert_eq!(recent.len(), 10);
    assert_eq!(recent[0], "s5");
    assert_eq!(recent.iter().filter(|p| p.as_str() == "s5").count(), 1);
    push_recent_scene(&mut recent, "new".to_string());
    assert_eq!(recent.len(), 10);
    assert_eq!(recent[0], "new");
    assert_eq!(recent[1], "s5");
    assert!(!recent.contains(&"s9".to_string()));
}

#[test]
fn recent_scenes_compare_as_paths() {
    let mut recent = vec!["scenes//a.sova".to_string(), "b.sova".to_string(), "scenes/./a.sova".to_string()];
    push_recent_scene(&mut recent, "scenes/a.sova".to_string());
    assert_eq!(recent, vec!["scenes/a.sova".to_string(), "b.sova".to_string()]);
}

#[test]
fn the_default_language_falls_back_to_the_first_available() {
    let langs = vec!["bali".to_string(), "forth".to_string()];
    assert_eq!(resolve_default_language("forth", &langs), "forth");
    assert_eq!(resolve_default_language("lua", &langs), "bali");
    assert_eq!(resolve_default_language("lua", &Vec::new()), "lua");
}

#[test]
fn user_hues_come_from_the_wrapping_hash_of_the_name() {
    // "ab": (0 * 31 + 97) * 31 + 98 = 3105, and 3105 mod 360 = 225
    assert_eq!(username_hue("ab"), 225);
    assert_eq!(username_hue(""), 0);
    assert!(username_hue("a rather long user name that wraps around") < 360);
}
