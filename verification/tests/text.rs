use fut::read_file_into_char_vec;
use fut::read_file_into_line_vec;

#[test]
fn it_stacks_lines_into_vec() {
    let string_vec: Vec<String> = read_file_into_line_vec("hello,\nworld,\nfoo,\nbar\n");

    assert_eq!("hello,", string_vec[0]);
    assert_eq!("world,", string_vec[1]);
    assert_eq!("foo,", string_vec[2]);
    assert_eq!("bar", string_vec[3]);
}

#[test]
fn it_stacks_chars_into_vec() {
    let string_vec: Vec<String> = read_file_into_char_vec("hello,\nworld,\nfoo,\nbar\n");

    assert_eq!("", string_vec[0]);
    assert_eq!("h", string_vec[1]);
    assert_eq!("e", string_vec[2]);
}

#[test]
fn it_replaces_string_contents() {
    let string: String = "hello\nworld\nfoo\nbar".to_string();

    assert_eq!(String::from("helloworldfoobar"), fut::sub(&string, "\n", ""));
}

#[test]
fn lines_keep_every_fragment_including_trailing_empty() {
    let string_vec = read_file_into_line_vec("hello,\nworld,\nfoo,\nbar\n");

    assert_eq!(
        vec![
            "hello,".to_string(),
            "world,".to_string(),
            "foo,".to_string(),
            "bar".to_string(),
            "".to_string(),
        ],
        string_vec
    );
}

#[test]
fn lines_of_empty_text_are_one_empty_fragment() {
    assert_eq!(vec!["".to_string()], read_file_into_line_vec(""));
}

#[test]
fn lines_keep_leading_and_consecutive_empty_fragments() {
    assert_eq!(
        vec![
            "".to_string(),
            "a".to_string(),
            "".to_string(),
            "b".to_string(),
        ],
        read_file_into_line_vec("\na\n\nb")
    );
}

#[test]
fn chars_are_wrapped_in_empty_fragments() {
    assert_eq!(
        vec![
            "".to_string(),
            "a".to_string(),
            "b".to_string(),
            "".to_string(),
        ],
        read_file_into_char_vec("ab")
    );
    assert_eq!(
        vec!["".to_string(), "".to_string()],
        read_file_into_char_vec("")
    );
}

#[test]
fn chars_of_the_sample_text_end_in_an_empty_fragment() {
    let content = "hello,\nworld,\nfoo,\nbar\n";
    let string_vec = read_file_into_char_vec(content);

    assert_eq!(content.chars().count() + 2, string_vec.len());
    assert_eq!("", string_vec[string_vec.len() - 1]);
}

#[test]
fn sub_replaces_multiple_occurrences_left_to_right() {
    let string = "one, two, three".to_string();

    assert_eq!("one; two; three", fut::sub(&string, ", ", "; "));
}

#[test]
fn sub_leaves_text_without_the_pattern_unchanged() {
    let string = "hello".to_string();

    assert_eq!("hello", fut::sub(&string, "xyz", "!"));
}

#[test]
fn sub_does_not_overlap_matches() {
    let string = "aaa".to_string();

    assert_eq!("ba", fut::sub(&string, "aa", "b"));
}

#[test]
fn sub_with_empty_pattern_inserts_at_every_boundary() {
    assert_eq!("-a-b-", fut::sub(&"ab".to_string(), "", "-"));
    assert_eq!("-", fut::sub(&"".to_string(), "", "-"));
}

#[test]
fn sub_counts_characters_not_bytes() {
    let string = "h\u{e9}llo".to_string();

    assert_eq!("hello", fut::sub(&string, "\u{e9}", "e"));
}
