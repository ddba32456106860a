use ralli::common::SubstringRef;

#[test]
fn finds_the_part_between_two_patterns() {
    let part = SubstringRef::find("a=1\nname=value\nb=2\n", "\nname=", "\n").unwrap();
    assert_eq!(part.before, "a=1\nname=");
    assert_eq!(part.substring, "value");
    assert_eq!(part.after, "\nb=2\n");
}

#[test]
fn takes_the_first_of_each_pattern() {
    let part = SubstringRef::find("x[a][b]", "[", "]").unwrap();
    assert_eq!(part.before, "x[");
    assert_eq!(part.substring, "a");
    assert_eq!(part.after, "][b]");
}

#[test]
fn a_missing_pattern_gives_nothing() {
    assert!(SubstringRef::find("abc", "x", "c").is_none());
    assert!(SubstringRef::find("abc", "a", "x").is_none());
    assert!(SubstringRef::find("abca", "c", "b").is_none());
    assert!(SubstringRef::find("", "a", "").is_none());
    assert!(SubstringRef::find("ab", "abc", "").is_none());
}

#[test]
fn empty_patterns_stand_everywhere() {
    let part = SubstringRef::find("abc", "", "").unwrap();
    assert_eq!((part.before, part.substring, part.after), ("", "", "abc"));
    let part = SubstringRef::find("abc", "abc", "").unwrap();
    assert_eq!((part.before, part.substring, part.after), ("abc", "", ""));
}

#[test]
fn works_on_characters_of_any_width() {
    let part = SubstringRef::find("é=ü;ß", "é=", ";").unwrap();
    assert_eq!((part.before, part.substring, part.after), ("é=", "ü", ";ß"));
}

#[test]
fn replace_puts_a_text_in_the_place_of_the_part() {
    let part = SubstringRef::find("key=old\nrest", "key=", "\n").unwrap();
    assert_eq!(part.replace("new"), "key=new\nrest");
    assert_eq!(part.replace(""), "key=\nrest");
    assert_eq!(part.replace(part.substring), "key=old\nrest");
}
