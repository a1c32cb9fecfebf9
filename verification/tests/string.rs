use snips_nlu_utils::string::{
    convert_to_byte_index, convert_to_byte_range, convert_to_char_index, convert_to_char_range,
    get_shape, hash_str_to_i32, is_title_case, normalize, prefix_until_char_index, recompose,
    remove_combination_marks, remove_diacritics, substring_with_char_range,
    suffix_from_char_index, without_combining_marks,
};

#[test]
fn substring_with_char_range_works() {
    // Given
    let text = "Hellö !!".to_string();
    let char_range = 2..5;

    // When
    let substring = substring_with_char_range(text, &char_range);

    // Then
    assert_eq!("llö", &substring);
}

#[test]
fn prefix_works() {
    // Given
    let text = "Hellö !!".to_string();

    // When
    let prefix = prefix_until_char_index(text, 5);

    // Then
    assert_eq!("Hellö", &prefix);
}

#[test]
fn suffix_works() {
    // Given
    let text = "Hellö !!".to_string();

    // When
    let suffix = suffix_from_char_index(text, 4);

    // Then
    assert_eq!("ö !!", &suffix);
}

#[test]
fn remove_combination_marks_works() {
    assert_eq!(Some('c'.to_owned()), remove_combination_marks('ç'));
    assert_eq!(Some('e'.to_owned()), remove_combination_marks('ë'));
    assert_eq!(Some('안'.to_owned()), remove_combination_marks('안'));
}

#[test]
fn remove_diacritics_works() {
    assert_eq!("".to_owned(), remove_diacritics(""));
    assert_eq!("ceaA".to_owned(), remove_diacritics("çéaÀ"));
}

#[test]
fn normalize_works() {
    assert_eq!("heloa".to_string(), normalize("  HelöÀ "));
}

#[test]
fn shape_works() {
    assert_eq!("xxx", get_shape("hello"));
    assert_eq!("xxx", get_shape("hëllo"));
    assert_eq!("Xxx", get_shape("Hello"));
    assert_eq!("XXX", get_shape("HELLO"));
    assert_eq!("xX", get_shape("hEllo"));
}

#[test]
fn substring_equals_skip_and_take() {
    let text = "añb€c😀d";
    let length = text.chars().count();
    for start in 0..=length {
        for end in start..=length {
            let expected: String = text.chars().skip(start).take(end - start).collect();
            assert_eq!(expected, substring_with_char_range(text.to_string(), &(start..end)));
        }
    }
}

#[test]
fn substring_stops_at_the_end_of_the_text() {
    assert_eq!("ö !!", substring_with_char_range("Hellö !!".to_string(), &(4..100)));
    assert_eq!("", substring_with_char_range("Hellö !!".to_string(), &(8..100)));
    assert_eq!("", substring_with_char_range("Hellö !!".to_string(), &(9..100)));
    assert_eq!("", substring_with_char_range(String::new(), &(0..3)));
}

#[test]
fn substring_of_an_empty_range_is_empty() {
    assert_eq!("", substring_with_char_range("Hellö !!".to_string(), &(3..3)));
    assert_eq!("", substring_with_char_range("Hellö !!".to_string(), &(5..2)));
}

#[test]
fn prefix_and_suffix_clamp_the_index() {
    assert_eq!("", prefix_until_char_index("Hellö".to_string(), 0));
    assert_eq!("Hellö", prefix_until_char_index("Hellö".to_string(), 50));
    assert_eq!("Hellö", suffix_from_char_index("Hellö".to_string(), 0));
    assert_eq!("", suffix_from_char_index("Hellö".to_string(), 5));
    assert_eq!("", suffix_from_char_index("Hellö".to_string(), 6));
    assert_eq!("", suffix_from_char_index("Hellö".to_string(), 50));
    assert_eq!("😀", suffix_from_char_index("é€😀".to_string(), 2));
}

#[test]
fn byte_index_is_the_encoded_length_of_what_precedes() {
    let text = "añb€c😀d";
    assert_eq!(0, convert_to_byte_index(text, 0));
    assert_eq!(1, convert_to_byte_index(text, 1));
    assert_eq!(3, convert_to_byte_index(text, 2));
    assert_eq!(4, convert_to_byte_index(text, 3));
    assert_eq!(7, convert_to_byte_index(text, 4));
    assert_eq!(8, convert_to_byte_index(text, 5));
    assert_eq!(12, convert_to_byte_index(text, 6));
    assert_eq!(13, convert_to_byte_index(text, 7));
}

#[test]
fn byte_index_clamps_to_the_length_in_bytes() {
    assert_eq!(13, convert_to_byte_index("añb€c😀d", 8));
    assert_eq!(13, convert_to_byte_index("añb€c😀d", usize::MAX));
    assert_eq!(0, convert_to_byte_index("", 0));
    assert_eq!(0, convert_to_byte_index("", 4));
}

#[test]
fn byte_index_is_strictly_increasing() {
    let text = "añb€c😀d";
    let length = text.chars().count();
    for index in 0..length {
        assert!(convert_to_byte_index(text, index) < convert_to_byte_index(text, index + 1));
    }
}

#[test]
fn char_index_rounds_forward_inside_a_character() {
    let text = "añb€c😀d";
    assert_eq!(0, convert_to_char_index(text, 0));
    assert_eq!(1, convert_to_char_index(text, 1));
    assert_eq!(2, convert_to_char_index(text, 2));
    assert_eq!(2, convert_to_char_index(text, 3));
    assert_eq!(3, convert_to_char_index(text, 4));
    assert_eq!(4, convert_to_char_index(text, 5));
    assert_eq!(4, convert_to_char_index(text, 6));
    assert_eq!(4, convert_to_char_index(text, 7));
    assert_eq!(5, convert_to_char_index(text, 8));
    assert_eq!(6, convert_to_char_index(text, 9));
    assert_eq!(6, convert_to_char_index(text, 12));
    assert_eq!(7, convert_to_char_index(text, 13));
}

#[test]
fn char_index_clamps_to_the_number_of_characters() {
    assert_eq!(7, convert_to_char_index("añb€c😀d", 14));
    assert_eq!(7, convert_to_char_index("añb€c😀d", usize::MAX));
    assert_eq!(0, convert_to_char_index("", 0));
    assert_eq!(0, convert_to_char_index("", 9));
    assert_eq!(1, convert_to_char_index("é", 1));
    assert_eq!(1, convert_to_char_index("é", 2));
    assert_eq!(1, convert_to_char_index("é", 3));
}

#[test]
fn round_trip_is_exact_on_character_boundaries() {
    let text = "añb€c😀d";
    for byte_index in 0..=text.len() {
        let back = convert_to_byte_index(text, convert_to_char_index(text, byte_index));
        if text.is_char_boundary(byte_index) {
            assert_eq!(byte_index, back);
        } else {
            assert!(back > byte_index);
            assert!(text.is_char_boundary(back));
        }
    }
}

#[test]
fn char_index_inverts_byte_index() {
    let text = "añb€c😀d";
    for char_index in 0..=text.chars().count() {
        assert_eq!(
            char_index,
            convert_to_char_index(text, convert_to_byte_index(text, char_index))
        );
    }
}

#[test]
fn ranges_convert_end_by_end() {
    let text = "Hellö !!";
    assert_eq!(2..5, convert_to_char_range(text, &(2..6)));
    assert_eq!(2..5, convert_to_char_range(text, &(2..5)));
    assert_eq!(2..6, convert_to_byte_range(text, &(2..5)));
    assert_eq!(4..9, convert_to_byte_range(text, &(4..20)));
    assert_eq!(8..8, convert_to_char_range(text, &(9..20)));
    assert_eq!(0..0, convert_to_byte_range("", &(0..1)));
}

#[test]
fn lone_combining_mark_is_dropped() {
    assert_eq!(None, remove_combination_marks('\u{301}'));
    assert_eq!(None, remove_combination_marks('\u{344}'));
    assert_eq!("", remove_diacritics("\u{301}"));
    assert_eq!("ab", remove_diacritics("a\u{301}b\u{308}"));
}

#[test]
fn characters_without_diacritics_are_kept() {
    assert_eq!(Some('a'), remove_combination_marks('a'));
    assert_eq!(Some(' '), remove_combination_marks(' '));
    assert_eq!(Some('€'), remove_combination_marks('€'));
    assert_eq!(Some('😀'), remove_combination_marks('😀'));
    assert_eq!("hello, world", remove_diacritics("hello, world"));
}

#[test]
fn stacked_diacritics_are_removed() {
    assert_eq!(Some('u'), remove_combination_marks('ǖ'));
    assert_eq!(Some('A'), remove_combination_marks('\u{212b}'));
    assert_eq!(Some('\u{915}'), remove_combination_marks('\u{958}'));
    assert_eq!("한국어", remove_diacritics("한국어"));
}

#[test]
fn without_combining_marks_keeps_the_order_of_the_rest() {
    assert_eq!(Vec::<char>::new(), without_combining_marks(&vec![]));
    assert_eq!(vec!['e'], without_combining_marks(&vec!['e', '\u{301}']));
    assert_eq!(vec!['a', 'b'], without_combining_marks(&vec!['\u{308}', 'a', '\u{304}', 'b']));
    assert_eq!(Vec::<char>::new(), without_combining_marks(&vec!['\u{308}', '\u{301}']));
}

#[test]
fn recompose_folds_from_the_left() {
    assert_eq!(None, recompose(&vec![]));
    assert_eq!(Some('a'), recompose(&vec!['a']));
    assert_eq!(Some('é'), recompose(&vec!['e', '\u{301}']));
    assert_eq!(Some('ǖ'), recompose(&vec!['u', '\u{308}', '\u{304}']));
    assert_eq!(Some('안'), recompose(&vec!['\u{110b}', '\u{1161}', '\u{11ab}']));
}

#[test]
fn recompose_fails_where_a_step_has_no_composition() {
    assert_eq!(None, recompose(&vec!['a', 'b']));
    assert_eq!(None, recompose(&vec!['a', 'b', '\u{301}']));
    assert_eq!(None, recompose(&vec!['e', '\u{301}', 'x']));
}

#[test]
fn normalize_trims_then_strips_then_lowers() {
    assert_eq!("", normalize(""));
    assert_eq!("", normalize(" \t\n "));
    assert_eq!("abc", normalize("ABC"));
    assert_eq!("a  b", normalize("\u{a0}A  B\u{2003}"));
    assert_eq!("ecole", normalize("École"));
    assert_eq!("i", normalize("İ"));
}

#[test]
fn normalize_is_idempotent_on_ordinary_text() {
    for text in ["  HelöÀ ", "École Normale", "", "  ", "ÀÉÎÕÜ çñ", "한국어 TEXT"] {
        let once = normalize(text);
        assert_eq!(once, normalize(&once));
    }
}

#[test]
fn normalize_keeps_space_that_a_dropped_mark_uncovers() {
    let once = normalize("\u{301} a");
    assert_eq!(" a", once);
    assert_eq!("a", normalize(&once));
}

#[test]
fn shape_of_the_empty_string_is_lowercase() {
    assert_eq!("xxx", get_shape(""));
}

#[test]
fn shape_takes_the_first_rule_that_holds() {
    assert_eq!("xxx", get_shape("a"));
    assert_eq!("XXX", get_shape("A"));
    assert_eq!("XXX", get_shape("ÉCOLE"));
    assert_eq!("Xxx", get_shape("École"));
    assert_eq!("xX", get_shape("HeLLo"));
    assert_eq!("xX", get_shape("helloWorld"));
}

#[test]
fn shape_of_text_without_case_is_mixed() {
    assert_eq!("xX", get_shape("123"));
    assert_eq!("xX", get_shape("!"));
    assert_eq!("xX", get_shape(" "));
    assert_eq!("xX", get_shape("hello world"));
    assert_eq!("xX", get_shape("HELLO!"));
}

#[test]
fn title_case_wants_lowercase_after_the_first_character() {
    assert!(is_title_case("Hello"));
    assert!(is_title_case("H"));
    assert!(is_title_case("Éa"));
    assert!(!is_title_case(""));
    assert!(!is_title_case("hello"));
    assert!(!is_title_case("HEllo"));
    assert!(!is_title_case("Hello1"));
    assert!(!is_title_case("Hello World"));
    assert!(!is_title_case("1ello"));
    assert_eq!("xX", get_shape("Hello1"));
}

#[test]
fn hash_is_the_low_half_of_fnv1a() {
    assert_eq!(-2078137563, hash_str_to_i32(""));
    assert_eq!(-2046694260, hash_str_to_i32("a"));
    assert_eq!(-147232792, hash_str_to_i32("foobar"));
    assert_eq!(-2136294133, hash_str_to_i32("hello"));
    assert_eq!(-1778237216, hash_str_to_i32("héllo"));
    assert_eq!(1225945294, hash_str_to_i32("chongo was here"));
}

#[test]
fn hash_depends_on_the_bytes_alone() {
    let built: String = ['h', 'é', 'l', 'l', 'o'].iter().collect();
    assert_eq!(hash_str_to_i32("héllo"), hash_str_to_i32(&built));
    assert_eq!(hash_str_to_i32("héllo"), hash_str_to_i32("héllo"));
    assert_ne!(hash_str_to_i32("héllo"), hash_str_to_i32("he\u{301}llo"));
    assert_ne!(hash_str_to_i32("hello"), hash_str_to_i32("hellp"));
}
