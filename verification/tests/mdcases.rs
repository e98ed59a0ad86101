use ben_shell::mdtests::{MdElement, TestAccumulator};
use ben_shell::text::{chars_to_string, str_to_chars};

fn t(s: &str) -> Vec<char> {
    str_to_chars(s)
}

fn s(v: &Vec<char>) -> String {
    chars_to_string(v)
}

#[test]
fn headings_open_cases_and_code_blocks_fill_them() {
    let mut acc = TestAccumulator::new();
    acc.feed(MdElement::Heading { level: 3, text: t("first") });
    acc.feed(MdElement::Other);
    acc.feed(MdElement::CodeBlock { code: t("input one") });
    acc.feed(MdElement::CodeBlock { code: t("output one") });
    acc.feed(MdElement::Heading { level: 3, text: t("second") });
    acc.feed(MdElement::CodeBlock { code: t("input two") });
    let tests = acc.finish();
    assert_eq!(tests.len(), 2);
    assert_eq!(s(&tests[0].name), "first");
    assert_eq!(s(&tests[0].case), "input one");
    assert_eq!(s(&tests[0].output), "output one");
    assert_eq!(s(&tests[1].name), "second");
    assert_eq!(s(&tests[1].case), "input two");
    assert_eq!(s(&tests[1].output), "");
}

#[test]
fn a_third_code_block_opens_a_follow_up_case() {
    let mut acc = TestAccumulator::new();
    acc.feed(MdElement::Heading { level: 4, text: t("case") });
    acc.feed(MdElement::CodeBlock { code: t("one") });
    acc.feed(MdElement::CodeBlock { code: t("two") });
    acc.feed(MdElement::CodeBlock { code: t("three") });
    acc.feed(MdElement::CodeBlock { code: t("four") });
    let tests = acc.finish();
    assert_eq!(tests.len(), 2);
    assert_eq!(s(&tests[0].name), "case");
    assert_eq!(s(&tests[0].case), "one");
    assert_eq!(s(&tests[0].output), "two");
    // the block that closed the first case is not kept; the next one
    // starts the follow-up case
    assert_eq!(s(&tests[1].name), "case *");
    assert_eq!(s(&tests[1].case), "four");
    assert_eq!(s(&tests[1].output), "");
}

#[test]
fn shallow_headings_do_not_open_cases() {
    let mut acc = TestAccumulator::new();
    acc.feed(MdElement::Heading { level: 2, text: t("ignored") });
    acc.feed(MdElement::CodeBlock { code: t("body") });
    let tests = acc.finish();
    assert_eq!(tests.len(), 1);
    assert_eq!(s(&tests[0].name), "");
    assert_eq!(s(&tests[0].case), "body");
}
