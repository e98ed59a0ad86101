use ben_shell::strutil::{offset, whole_line};

#[test]
fn offset_test() {
    let total = "Hiya, test";
    let slice = &total[4..];
    assert_eq!(offset(total, slice), 4);
}

#[test]
fn whole_line_test() {
    let total = "Start\nThis is a test\n something";
    let offset = total.find("test").unwrap();
    let slice = &total[offset..(offset + 4)];
    assert_eq!(slice, "test");
    assert_eq!(whole_line(total, slice), "This is a test");
}

#[test]
fn whole_line_of_the_first_line() {
    assert_eq!(whole_line("one two\nthree", "one"), "one two");
}

#[test]
fn offset_counts_bytes_before_the_fragment() {
    // the e-acute takes two bytes, so the fragment sits at byte 7
    let total = "h\u{e9}llo x";
    let fragment = total.find('x').unwrap();
    assert_eq!(fragment, 7);
    assert_eq!(offset(total, &total[fragment..]), 7);
}
