use little_helpers::listify::{
    listify_into_file, listify_into_vec, listify_items, listify_lines, split_text, text_lines,
};
use little_helpers::parse::FromText;
use little_helpers::text::{chars_of, string_of};

fn generate_test_text() -> String {
    let mut text = String::new();
    for n in 0..10 {
        text.push_str(&format!("{},", n));
    }
    text
}

fn strings(items: &[&str]) -> Vec<String> {
    items.iter().map(|s| s.to_string()).collect()
}

fn read<T: FromText>(s: &str) -> Option<T> {
    let chars: Vec<char> = s.chars().collect();
    T::from_text(&chars)
}

#[test]
fn test_file() {
    let text = generate_test_text();
    assert_eq!(
        "0\n1\n2\n3\n4\n5\n6\n7\n8\n9\n",
        listify_into_file(&text, ",")
    );
}

#[test]
fn test_vector_i32() {
    let text = generate_test_text();
    let vector: Vec<i32> = listify_into_vec(&text, ",");
    assert_eq!(vector.len(), 10);
    for n in 0..10 {
        assert_eq!(vector[n], n as i32);
    }
}

#[test]
fn reshapes_comma_separated_values() {
    assert_eq!(listify_into_file("1,2,3", ","), "1\n2\n3\n");
}

#[test]
fn reshaping_drops_empty_fragments() {
    assert_eq!(listify_into_file(",,a,,b,", ","), "a\nb\n");
    assert_eq!(listify_into_file("", ","), "");
    assert_eq!(listify_into_file(",,,", ","), "");
    assert_eq!(listify_into_file("abc", ","), "abc\n");
    assert_eq!(listify_items(",,a,,b,", ","), strings(&["a", "b"]));
}

#[test]
fn reshaping_with_a_longer_delimiter() {
    assert_eq!(listify_into_file("a->b->->c", "->"), "a\nb\nc\n");
    assert_eq!(listify_into_file("aaa", "aa"), "a\n");
    assert_eq!(listify_into_file("a-b", "->"), "a-b\n");
}

#[test]
fn reshaped_text_gives_the_items_back() {
    for (text, delimiter) in [
        ("1,2,3", ","),
        (",,a,,b,", ","),
        ("x::y::::z", "::"),
        ("", ","),
        ("one two  three", " "),
    ] {
        let items = listify_items(text, delimiter);
        let listed = listify_into_file(text, delimiter);
        assert_eq!(listify_items(&listed, "\n"), items);
    }
}

#[test]
fn split_keeps_empty_fragments() {
    assert_eq!(split_text("a,b", ","), strings(&["a", "b"]));
    assert_eq!(split_text(",a,,b,", ","), strings(&["", "a", "", "b", ""]));
    assert_eq!(split_text("", ","), strings(&[""]));
    assert_eq!(split_text("aaa", "aa"), strings(&["", "a"]));
    assert_eq!(split_text("aaaa", "aa"), strings(&["", "", ""]));
}

#[test]
fn split_on_an_empty_delimiter() {
    assert_eq!(
        split_text("rust", ""),
        strings(&["", "r", "u", "s", "t", ""])
    );
    assert_eq!(split_text("", ""), strings(&["", ""]));
    assert_eq!(listify_into_file("abc", ""), "a\nb\nc\n");
}

#[test]
fn split_agrees_with_the_standard_library() {
    let texts = [
        "", "a", ",", "a,b", ",a,,b,", "aaa", "aaaa", "abab", "ababa", "1\n2\n", "é,ü,,ß",
        "a->b->->c", "--", "->->",
    ];
    let delimiters = [",", "aa", "ab", "aba", "\n", "->", "-", "", "é"];
    for text in texts {
        for delimiter in delimiters {
            let expected: Vec<String> = text.split(delimiter).map(|s| s.to_string()).collect();
            assert_eq!(split_text(text, delimiter), expected);
        }
    }
}

#[test]
fn lenient_parsing_omits_bad_fragments() {
    let values: Vec<i32> = listify_into_vec("1,x,3", ",");
    assert_eq!(values, vec![1, 3]);
    let values: Vec<i64> = listify_into_vec("1,,-2, 3,+4,5 ", ",");
    assert_eq!(values, vec![1, -2, 4]);
    let values: Vec<u32> = listify_into_vec("", ",");
    assert_eq!(values, Vec::<u32>::new());
}

#[test]
fn lines_keep_their_place() {
    let values: Vec<Option<i32>> = listify_lines("1\n\n3\n");
    assert_eq!(values, vec![Some(1), None, Some(3)]);
    let values: Vec<Option<u64>> = listify_lines("10\r\nx\r\n30");
    assert_eq!(values, vec![Some(10), None, Some(30)]);
    let values: Vec<Option<i32>> = listify_lines("");
    assert_eq!(values, Vec::<Option<i32>>::new());
}

#[test]
fn lines_of_a_text() {
    assert_eq!(text_lines("foo\nbar\n\r\nbaz\r"), strings(&["foo", "bar", "", "baz\r"]));
    assert_eq!(text_lines("foo\r\nbar\n\nbaz\n"), strings(&["foo", "bar", "", "baz"]));
    assert_eq!(text_lines(""), Vec::<String>::new());
    assert_eq!(text_lines("\n"), strings(&[""]));
    assert_eq!(text_lines("a\r\r\n"), strings(&["a\r"]));
}

#[test]
fn lines_agree_with_the_standard_library() {
    for text in [
        "", "\n", "\r", "\r\n", "a", "a\n", "a\r", "a\r\n", "a\n\nb", "a\r\n\r\nb\r", "\n\n",
        "1\n\n3\n", "x\ry\nz", "a\r\r\nb",
    ] {
        let expected: Vec<String> = text.lines().map(|s| s.to_string()).collect();
        assert_eq!(text_lines(text), expected);
    }
}

#[test]
fn numbers_are_read_as_the_standard_library_reads_them() {
    for text in [
        "", "0", "7", "-7", "+7", "-0", "+0", "-", "+", "--1", "+-1", "007", "1 ", " 1", "1_0",
        "1.5", "x", "١", "2147483647", "2147483648", "-2147483648", "-2147483649", "4294967295",
        "4294967296", "9223372036854775807", "9223372036854775808", "-9223372036854775808",
        "-9223372036854775809", "18446744073709551615", "18446744073709551616",
        "99999999999999999999999999", "-99999999999999999999999999", "0000000000000000000000001",
    ] {
        assert_eq!(read::<i32>(text), text.parse::<i32>().ok(), "{}", text);
        assert_eq!(read::<i64>(text), text.parse::<i64>().ok(), "{}", text);
        assert_eq!(read::<u32>(text), text.parse::<u32>().ok(), "{}", text);
        assert_eq!(read::<u64>(text), text.parse::<u64>().ok(), "{}", text);
        assert_eq!(read::<usize>(text), text.parse::<usize>().ok(), "{}", text);
    }
}

#[test]
fn numbers_at_the_limits() {
    assert_eq!(read::<i32>("2147483647"), Some(i32::MAX));
    assert_eq!(read::<i32>("2147483648"), None);
    assert_eq!(read::<i32>("-2147483648"), Some(i32::MIN));
    assert_eq!(read::<i64>("-9223372036854775808"), Some(i64::MIN));
    assert_eq!(read::<u64>("18446744073709551615"), Some(u64::MAX));
    assert_eq!(read::<u64>("18446744073709551616"), None);
    assert_eq!(read::<u32>("-0"), None);
    assert_eq!(read::<i32>("-0"), Some(0));
    assert_eq!(read::<u32>("+12"), Some(12));
}

#[test]
fn strings_and_characters_convert_both_ways() {
    for text in ["", "a", "hello", "é,ü", "1\n2\n"] {
        let chars = chars_of(text);
        assert_eq!(chars, text.chars().collect::<Vec<char>>());
        assert_eq!(string_of(&chars), text);
    }
    assert_eq!(string_of(&['a', 'b']), "ab");
}

#[test]
fn small_and_pointer_sized_numbers() {
    for text in [
        "", "0", "-1", "+1", "127", "128", "-128", "-129", "255", "256", "32767", "32768",
        "-32768", "-32769", "65535", "65536", "9223372036854775807", "-9223372036854775808",
        "9223372036854775808", "-0", "a",
    ] {
        assert_eq!(read::<i8>(text), text.parse::<i8>().ok(), "{}", text);
        assert_eq!(read::<i16>(text), text.parse::<i16>().ok(), "{}", text);
        assert_eq!(read::<u8>(text), text.parse::<u8>().ok(), "{}", text);
        assert_eq!(read::<u16>(text), text.parse::<u16>().ok(), "{}", text);
        assert_eq!(read::<isize>(text), text.parse::<isize>().ok(), "{}", text);
    }
}

#[test]
fn reshaped_text_read_by_lines() {
    for (text, delimiter) in [("1,2,3", ","), (",,a,,b,", ","), ("x::y::::z", "::"), ("", ",")] {
        let items = listify_items(text, delimiter);
        let listed = listify_into_file(text, delimiter);
        assert_eq!(text_lines(&listed), items);
    }
    assert_eq!(text_lines(&listify_into_file("a\r,b", ",")), strings(&["a", "b"]));
}
