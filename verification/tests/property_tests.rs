use substring_replace::char_find;
use substring_replace::char_len;
use substring_replace::char_rfind;
use substring_replace::char_utf8_len;
use substring_replace::insert_adjacent;
use substring_replace::insert_after_last;
use substring_replace::insert_before_first;
use substring_replace::insert_between;
use substring_replace::position_and_offset_to_start_end;
use substring_replace::prepend;
use substring_replace::append;
use substring_replace::resolve_index;
use substring_replace::substring;
use substring_replace::substring_insert;
use substring_replace::substring_offset;
use substring_replace::substring_pull;
use substring_replace::substring_remove;
use substring_replace::substring_replace;
use substring_replace::substring_replace_end;
use substring_replace::substring_replace_start;
use substring_replace::to_end_byte_index;
use substring_replace::to_start_byte_index;

#[test]
fn char_length_matches_byte_length_over_width() {
    // one-, two-, three- and four-byte characters in turn
    let one = "abcdef";
    assert_eq!(char_len(one), one.len());
    let two = "привет";
    assert_eq!(char_len(two), two.len() / 2);
    let three = "日本語";
    assert_eq!(char_len(three), three.len() / 3);
    let four = "🐫🐕🐍";
    assert_eq!(char_len(four), four.len() / 4);
}

#[test]
fn round_trip_replace_with_extracted_substring() {
    let text = "a🐫b🐕cdef";
    let n = char_len(text) as i64;
    for a in 0..=char_len(text) {
        for b in a..=char_len(text) {
            let piece = substring(text, a, b as i64);
            assert_eq!(substring_replace(text, piece, a, b as i64), text);
        }
    }
    assert_eq!(substring_replace(text, substring(text, 0, n), 0, n), text);
}

#[test]
fn empty_range_yields_empty_string() {
    let text = "abcdef";
    assert_eq!(substring(text, 3, 3), "");
    assert_eq!(substring(text, 4, 2), "");
    assert_eq!(substring(text, 3, -20), "");
    assert_eq!(substring(text, 50, 99), "");
    assert_eq!(substring("", 0, 5), "");
}

#[test]
fn insertion_has_summed_length_and_decomposes() {
    let text = "a🐫b🐕c";
    let ins = "xy🐍";
    let n = char_len(text);
    for i in 0..=(n + 2) {
        let r = substring_insert(text, ins, i);
        assert_eq!(char_len(&r), n + char_len(ins));
        let expect = format!(
            "{}{}{}",
            substring(text, 0, i as i64),
            ins,
            substring(text, i, n as i64)
        );
        assert_eq!(r, expect);
    }
}

#[test]
fn insertion_past_end_appends() {
    assert_eq!(substring_insert("abc", "x", 3), "abcx");
    assert_eq!(substring_insert("abc", "x", 10), "abcx");
    assert_eq!(substring_insert("", "x", 0), "x");
}

#[test]
fn removal_then_insertion_restores_text() {
    let text = "пример🐫текста";
    let n = char_len(text);
    for a in 0..=n {
        for b in a..=n {
            let removed = substring_remove(text, a, b);
            let piece = substring(text, a, b as i64);
            assert_eq!(substring_insert(&removed, piece, a), text);
        }
    }
}

#[test]
fn negative_end_matches_length_minus_k() {
    let text = "一二三四五六七八";
    let n = char_len(text) as i64;
    for k in 1..=n {
        for start in 0..char_len(text) {
            assert_eq!(
                substring(text, start, -k),
                substring(text, start, n - k)
            );
        }
    }
}

#[test]
fn find_handles_empty_and_missing_patterns() {
    assert_eq!(char_find("abcdef", ""), None);
    assert_eq!(char_rfind("abcdef", ""), None);
    assert_eq!(char_find("abc", "xyz"), None);
    assert_eq!(char_rfind("abc", "xyz"), None);
    assert_eq!(char_find("", "a"), None);
    assert_eq!(char_find("ab", "abc"), None);
}

#[test]
fn find_reconsiders_overlapping_candidates() {
    assert_eq!(char_find("aab", "ab"), Some(1));
    assert_eq!(char_find("aaa", "aa"), Some(0));
    assert_eq!(char_rfind("aaa", "aa"), Some(1));
    assert_eq!(char_find("ababab", "abab"), Some(0));
    assert_eq!(char_rfind("ababab", "abab"), Some(2));
}

#[test]
fn find_whole_text_and_single_characters() {
    assert_eq!(char_find("abc", "abc"), Some(0));
    assert_eq!(char_rfind("abc", "abc"), Some(0));
    assert_eq!(char_find("x", "x"), Some(0));
    assert_eq!(char_rfind("🐫a🐫", "🐫"), Some(2));
}

#[test]
fn replace_degenerate_range_inserts_at_start() {
    assert_eq!(substring_replace("abcde", "X", 3, 1), "abcXde");
    assert_eq!(substring_replace("abcde", "X", 2, 2), "abXcde");
    assert_eq!(substring_replace("", "X", 0, 0), "X");
}

#[test]
fn offset_spans_extend_left_and_right() {
    let text = "abcdefg";
    assert_eq!(substring_offset(text, 2, 3), "cde");
    assert_eq!(substring_offset(text, 5, -3), "cde");
    // a clamped start still extends the full magnitude to the right
    assert_eq!(substring_offset(text, 2, -5), "abcde");
    assert_eq!(substring_offset(text, 0, 0), "");
    assert_eq!(substring_pull(text, 5, -3), "abfg");
    assert_eq!(substring_pull(text, 2, 3), "abfg");
}

#[test]
fn position_and_offset_resolution_saturates() {
    assert_eq!(position_and_offset_to_start_end(4, 3), (4, 7));
    assert_eq!(position_and_offset_to_start_end(4, -3), (1, 4));
    assert_eq!(position_and_offset_to_start_end(2, -5), (0, 5));
    assert_eq!(
        position_and_offset_to_start_end(usize::MAX, 2),
        (usize::MAX, usize::MAX)
    );
}

#[test]
fn resolve_index_counts_back_from_end() {
    assert_eq!(resolve_index(15, -5), 10);
    assert_eq!(resolve_index(15, 7), 7);
    assert_eq!(resolve_index(15, 40), 15);
    assert_eq!(resolve_index(3, -7), 0);
    assert_eq!(resolve_index(0, -1), 0);
    assert_eq!(resolve_index(5, i64::MIN), 0);
}

#[test]
fn byte_index_translation_on_multibyte_text() {
    let text = "a🐫b";
    assert_eq!(to_start_byte_index(text, 0), 0);
    assert_eq!(to_start_byte_index(text, 1), 1);
    assert_eq!(to_start_byte_index(text, 2), 5);
    assert_eq!(to_start_byte_index(text, 3), 0);
    assert_eq!(to_start_byte_index(text, 9), 0);
    assert_eq!(to_end_byte_index(text, 1), 1);
    assert_eq!(to_end_byte_index(text, 2), 5);
    assert_eq!(to_end_byte_index(text, 3), 6);
    assert_eq!(to_end_byte_index(text, 9), 6);
}

#[test]
fn char_widths_cover_all_four_encodings() {
    assert_eq!(char_utf8_len('a'), 1);
    assert_eq!(char_utf8_len('й'), 2);
    assert_eq!(char_utf8_len('本'), 3);
    assert_eq!(char_utf8_len('🐫'), 4);
}

#[test]
fn insert_adjacent_without_occurrence_keeps_text() {
    assert_eq!(insert_adjacent("abc", "x", "q", true, true), "abc");
    assert_eq!(insert_adjacent("abc", "x", "", false, false), "abc");
    assert_eq!(insert_before_first("abc", "x", "zz"), "abc");
    assert_eq!(insert_after_last("abc", "x", "zz"), "abc");
}

#[test]
fn insert_adjacent_places_around_occurrences() {
    let text = "one-two-three";
    assert_eq!(insert_before_first(text, "+", "-"), "one+-two-three");
    assert_eq!(insert_adjacent(text, "+", "-", false, true), "one-+two-three");
    assert_eq!(insert_adjacent(text, "+", "-", true, false), "one-two+-three");
    assert_eq!(insert_after_last(text, "+", "-"), "one-two-+three");
}

#[test]
fn insert_between_requires_both_patterns() {
    assert_eq!(insert_between("a-b.c", "x", "-", "!"), "a-b.c");
    assert_eq!(insert_between("a-b.c", "x", "#", "."), "a-b.c");
    assert_eq!(insert_between("a-b.c", "x", "-", "."), "a-x.c");
}

#[test]
fn replace_start_end_with_negative_offsets() {
    assert_eq!(substring_replace_start("brown", "d", 2), "down");
    assert_eq!(substring_replace_end("blue", "ack", 2), "black");
    assert_eq!(substring_replace_start("abcdef", "X", -2), "Xef");
    assert_eq!(substring_replace_end("abcdef", "X", -2), "abcdX");
}

#[test]
fn prepend_and_append_concatenate() {
    assert_eq!(prepend("world", "hello "), "hello world");
    assert_eq!(append("hello", " world"), "hello world");
    assert_eq!(prepend("", "a"), "a");
    assert_eq!(append("", "a"), "a");
}
