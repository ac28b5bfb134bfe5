use dice_roulette::find_files::{contains_text, os_str_contains_name};

#[test]
fn match_os_str_with_name() {
    // Construct the name to test (as a file name)
    let os_file_name = Some("sample.txt");

    // Check rejection of standard fail case (names are different)
    assert!(!os_str_contains_name(os_file_name, "reject.txt"));

    // Check acceptance of standard succeeding case (names exactly match)
    assert!(os_str_contains_name(os_file_name, "sample.txt"));

    // Check a partial match is successful
    assert!(os_str_contains_name(os_file_name, "ample"));

    // Expect failure when matching against a path
    assert!(!os_str_contains_name(os_file_name, "tests/assets/sample.txt"));
}

#[test]
fn a_name_that_is_not_text_counts_as_empty() {
    assert!(!os_str_contains_name(None, "a"));
    assert!(os_str_contains_name(None, ""));
}

#[test]
fn the_empty_term_is_found_in_every_name() {
    assert!(contains_text("sample.txt", ""));
    assert!(contains_text("", ""));
    assert!(!contains_text("", "s"));
}

#[test]
fn a_term_is_found_at_either_end() {
    assert!(contains_text("sample1.txt", "sam"));
    assert!(contains_text("sample1.txt", ".txt"));
    assert!(contains_text("sample1.txt", "t"));
    assert!(!contains_text("sample1.txt", "txt."));
    assert!(!contains_text("sample1.txt", "sample2"));
    assert!(!contains_text("aab", "ab "));
    assert!(contains_text("aaab", "aab"));
}

#[test]
fn a_term_is_matched_character_by_character() {
    assert!(contains_text("café-menü.txt", "é-m"));
    assert!(contains_text("日本語.txt", "本語"));
    assert!(!contains_text("日本語.txt", "語本"));
    assert!(!contains_text("sample.txt", "Sample"));
}

#[test]
fn text_is_searched_as_the_standard_library_searches_it() {
    let names = ["sample1.txt", "sample2.txt", "false", "", "aXbXc", "ünï.cödé"];
    let terms = ["", "s", "sam", "ample1", "false_sample.txt", "X", "XbX", "ï.c", "é"];
    for name in names {
        for term in terms {
            assert_eq!(contains_text(name, term), name.contains(term));
        }
    }
}
