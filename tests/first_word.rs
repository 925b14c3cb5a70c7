use words::first_word;

#[test]
fn two_words_give_the_first() {
    assert_eq!(first_word("hello world"), "hello");
}

#[test]
fn single_word_is_whole_input() {
    assert_eq!(first_word("rust"), "rust");
}

#[test]
fn empty_input_gives_empty() {
    assert_eq!(first_word(""), "");
}

#[test]
fn leading_space_gives_empty() {
    assert_eq!(first_word(" leading"), "");
}

#[test]
fn first_of_several_spaces_wins() {
    assert_eq!(first_word("a b c"), "a");
    assert_eq!(first_word("ab  cd"), "ab");
}

#[test]
fn trailing_space_is_cut() {
    assert_eq!(first_word("word "), "word");
}

#[test]
fn only_spaces_give_empty() {
    assert_eq!(first_word("   "), "");
}

#[test]
fn other_whitespace_is_not_a_separator() {
    assert_eq!(first_word("a\tb"), "a\tb");
    assert_eq!(first_word("line\n"), "line\n");
}

#[test]
fn multibyte_characters_are_kept_whole() {
    assert_eq!(first_word("héllo wörld"), "héllo");
    assert_eq!(first_word("日本語 テキスト"), "日本語");
    assert_eq!(first_word("ünïcödé"), "ünïcödé");
}

#[test]
fn result_is_a_view_into_the_input() {
    let owned = String::from("borrowed view");
    let word = first_word(&owned);
    assert_eq!(word.as_ptr(), owned.as_ptr());
    assert_eq!(word.len(), 8);
}

#[test]
fn input_without_space_is_returned_unchanged() {
    let text = "no-spaces-here,just:punctuation";
    let word = first_word(text);
    assert_eq!(word, text);
    assert_eq!(word.as_ptr(), text.as_ptr());
}
