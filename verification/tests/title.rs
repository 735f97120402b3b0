use workspace_labels::title::{char_is_whitespace, normalize, truncate_window_title};

#[test]
fn empty_title_is_unchanged() {
    assert_eq!(normalize(""), "");
}

#[test]
fn short_title_is_unchanged() {
    assert_eq!(normalize("short"), "short");
}

#[test]
fn twelve_bytes_are_unchanged() {
    assert_eq!("exactly12ch!".len(), 12);
    assert_eq!(normalize("exactly12ch!"), "exactly12ch!");
}

#[test]
fn short_title_keeps_its_spaces() {
    assert_eq!(normalize("a b c d e f"), "a b c d e f");
    assert_eq!(normalize("   "), "   ");
}

#[test]
fn long_first_word_is_cut_and_marked() {
    assert_eq!(normalize("thisislongerthan12"), "thisislo~");
}

#[test]
fn long_title_is_cut_to_its_first_word() {
    assert_eq!(normalize("firefox web browser"), "firefox");
    assert_eq!(normalize("twelve_bytes and then some"), "twelve_bytes");
}

#[test]
fn first_word_of_thirteen_bytes_is_cut() {
    assert_eq!(normalize("abcdefghijklm"), "abcdefgh~");
    assert_eq!(normalize("abcdefghijklm and more"), "abcdefgh~");
}

#[test]
fn long_title_that_starts_with_white_space_has_an_empty_label() {
    assert_eq!(normalize(" leading space here"), "");
    assert_eq!(normalize("              "), "");
    assert_eq!(normalize("\t\n\t\n\t\n\t\n\t\n\t\n\t\n"), "");
}

#[test]
fn every_kind_of_white_space_ends_the_first_word() {
    assert_eq!(normalize("org.gnome\u{3000}Nautilus"), "org.gnome");
    assert_eq!(normalize("org.gnome\u{a0}Nautilus"), "org.gnome");
    assert_eq!(normalize("org.gnome\tNautilus"), "org.gnome");
    assert_eq!(normalize("org.gnome\u{2028}Nautilus"), "org.gnome");
}

#[test]
fn zero_width_space_is_no_white_space() {
    assert_eq!(normalize("ab\u{200b}cd efghijkl"), "ab\u{200b}cd");
}

#[test]
fn length_is_counted_in_bytes() {
    assert_eq!("éééééé".len(), 12);
    assert_eq!(normalize("éééééé"), "éééééé");
    assert_eq!("ééééééé".len(), 14);
    assert_eq!(normalize("ééééééé"), "ééééééé~");
}

#[test]
fn a_cut_never_splits_a_character() {
    assert_eq!(normalize("ééééééééééééé"), "éééééééé~");
    assert_eq!(normalize("日本語のウィンドウタイトル"), "日本語のウィンド~");
    assert_eq!(normalize("aaaaaaaaaé b cd"), "aaaaaaaaaé");
    assert_eq!(normalize("aaaaaaaaaaaé b"), "aaaaaaaa~");
}

#[test]
fn first_word_of_few_wide_characters_is_kept_whole_and_marked() {
    assert_eq!(normalize("😀😀😀😀"), "😀😀😀😀~");
    assert_eq!(normalize("😀😀😀😀 smile"), "😀😀😀😀~");
}

#[test]
fn label_of_few_wide_characters_grows_when_normalized_again() {
    let once = normalize("😀😀😀😀");
    let twice = normalize(&once);
    assert_eq!(once, "😀😀😀😀~");
    assert_eq!(twice, "😀😀😀😀~~");
}

#[test]
fn normalizing_twice_is_normalizing_once() {
    let titles = [
        "",
        "short",
        "exactly12ch!",
        "thisislongerthan12",
        "firefox web browser",
        "abcdefghijklm",
        " leading space here",
        "org.gnome\u{3000}Nautilus",
        "ééééééééééééé",
        "日本語のウィンドウタイトル",
        "org.mozilla.firefox",
        "a~b~c~d~e~f~g~h~i~j",
    ];
    for title in titles {
        let once = normalize(title);
        assert_eq!(normalize(&once), once, "{title:?}");
    }
}

#[test]
fn label_has_at_most_twelve_characters() {
    let titles = [
        "",
        "exactly12ch!",
        "thisislongerthan12",
        "ééééééééééééé",
        "😀😀😀😀😀😀😀😀😀😀😀😀😀",
        "one two three four five six",
    ];
    for title in titles {
        assert!(normalize(title).chars().count() <= 12, "{title:?}");
    }
}

#[test]
fn truncate_window_title_replaces_in_place() {
    let mut title = String::from("org.mozilla.firefox");
    truncate_window_title(&mut title);
    assert_eq!(title, "org.mozi~");
    let mut short = String::from("foot");
    truncate_window_title(&mut short);
    assert_eq!(short, "foot");
}

#[test]
fn whitespace_matches_the_standard_library() {
    let mut code: u32 = 0;
    while code <= 0x10FFFF {
        if let Some(c) = char::from_u32(code) {
            assert_eq!(char_is_whitespace(c), c.is_whitespace(), "U+{:04X}", code);
        }
        code += 1;
    }
}
