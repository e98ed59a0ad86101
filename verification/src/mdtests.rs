//! The accumulation rule of the markdown-driven test runner: walking a
//! document's elements in order, a level-three-or-deeper heading starts a
//! new case, the first code block is its input, the second its expected
//! output, and any further code block under the same heading opens a
//! follow-up case named with a trailing ` *`.

use vstd::prelude::*;

use crate::text;

verus! {

/// One extracted test case.
pub struct Test {
    pub name: Vec<char>,
    pub case: Vec<char>,
    pub output: Vec<char>,
}

#[verifier::ext_equal]
pub struct TestView {
    pub name: Seq<char>,
    pub case: Seq<char>,
    pub output: Seq<char>,
}

impl View for Test {
    type V = TestView;

    open spec fn view(&self) -> TestView {
        TestView { name: self.name@, case: self.case@, output: self.output@ }
    }
}

/// A document element reduced to what the accumulator reads: a heading's
/// level and undecorated text, a code block's content, or anything else.
pub enum MdElement {
    Heading { level: u8, text: Vec<char> },
    CodeBlock { code: Vec<char> },
    Other,
}

#[verifier::ext_equal]
pub enum MdElementView {
    Heading { level: u8, text: Seq<char> },
    CodeBlock { code: Seq<char> },
    Other,
}

impl View for MdElement {
    type V = MdElementView;

    open spec fn view(&self) -> MdElementView {
        match self {
            MdElement::Heading { level, text } => MdElementView::Heading {
                level: *level,
                text: text@,
            },
            MdElement::CodeBlock { code } => MdElementView::CodeBlock { code: code@ },
            MdElement::Other => MdElementView::Other,
        }
    }
}

/// The accumulation state: finished cases and the one being collected.
pub struct TestAccumulator {
    pub tests: Vec<Test>,
    pub current: Test,
}

#[verifier::ext_equal]
pub struct AccView {
    pub tests: Seq<TestView>,
    pub current: TestView,
}

impl View for TestAccumulator {
    type V = AccView;

    open spec fn view(&self) -> AccView {
        AccView {
            tests: self.tests@.map_values(|t: Test| t@),
            current: self.current@,
        }
    }
}

pub open spec fn empty_test() -> TestView {
    TestView { name: Seq::empty(), case: Seq::empty(), output: Seq::empty() }
}

/// One accumulation step.
pub open spec fn spec_fold(acc: AccView, e: MdElementView) -> AccView {
    match e {
        MdElementView::Heading { level, text } => {
            if level >= 3 {
                if acc.current.case.len() > 0 {
                    AccView {
                        tests: acc.tests.push(acc.current),
                        current: TestView { name: text, ..empty_test() },
                    }
                } else {
                    AccView { current: TestView { name: text, ..acc.current }, ..acc }
                }
            } else {
                acc
            }
        },
        MdElementView::CodeBlock { code } => {
            if acc.current.case.len() == 0 {
                AccView { current: TestView { case: code, ..acc.current }, ..acc }
            } else if acc.current.output.len() == 0 {
                AccView { current: TestView { output: code, ..acc.current }, ..acc }
            } else {
                AccView {
                    tests: acc.tests.push(acc.current),
                    current: TestView {
                        name: acc.current.name + seq![' ', '*'],
                        ..empty_test()
                    },
                }
            }
        },
        MdElementView::Other => acc,
    }
}

impl TestAccumulator {
    pub fn new() -> (r: TestAccumulator)
        ensures
            r@ == (AccView { tests: Seq::empty(), current: empty_test() }),
    {
        let r = TestAccumulator {
            tests: Vec::new(),
            current: Test { name: Vec::new(), case: Vec::new(), output: Vec::new() },
        };
        proof {
            assert(r@ =~= AccView { tests: Seq::empty(), current: empty_test() });
        }
        r
    }

    /// Feeds one document element through the accumulation rule.
    pub fn feed(&mut self, element: MdElement)
        ensures
            final(self)@ == spec_fold(old(self)@, element@),
    {
        match element {
            MdElement::Heading { level, text } => {
                if level >= 3 {
                    if self.current.case.len() > 0 {
                        let ghost t0 = self@.tests;
                        let done = Test {
                            name: text::copy_text(&self.current.name),
                            case: text::copy_text(&self.current.case),
                            output: text::copy_text(&self.current.output),
                        };
                        self.current = Test { name: text, case: Vec::new(), output: Vec::new() };
                        self.tests.push(done);
                        proof {
                            assert(self@.tests =~= t0.push(old(self)@.current));
                            assert(self@ =~= spec_fold(old(self)@, element@));
                        }
                    } else {
                        self.current.name = text;
                        proof {
                            assert(self@ =~= spec_fold(old(self)@, element@));
                        }
                    }
                } else {
                    proof {
                        assert(self@ =~= spec_fold(old(self)@, element@));
                    }
                }
            },
            MdElement::CodeBlock { code } => {
                if self.current.case.len() == 0 {
                    self.current.case = code;
                    proof {
                        assert(self@ =~= spec_fold(old(self)@, element@));
                    }
                } else if self.current.output.len() == 0 {
                    self.current.output = code;
                    proof {
                        assert(self@ =~= spec_fold(old(self)@, element@));
                    }
                } else {
                    let ghost t0 = self@.tests;
                    let mut next_name = text::copy_text(&self.current.name);
                    text::push_str(&mut next_name, " *");
                    let done = Test {
                        name: text::copy_text(&self.current.name),
                        case: text::copy_text(&self.current.case),
                        output: text::copy_text(&self.current.output),
                    };
                    self.current = Test { name: next_name, case: Vec::new(), output: Vec::new() };
                    self.tests.push(done);
                    proof {
                        assert(" *"@ =~= seq![' ', '*']) by {
                            reveal_strlit(" *");
                        }
                        assert(self@.tests =~= t0.push(old(self)@.current));
                        assert(self@ =~= spec_fold(old(self)@, element@));
                    }
                }
            },
            MdElement::Other => {
                proof {
                    assert(self@ =~= spec_fold(old(self)@, element@));
                }
            },
        }
    }

    /// Closes the walk: a case still being collected is kept.
    pub fn finish(self) -> (r: Vec<Test>)
        ensures
            r@.map_values(|t: Test| t@) == (if self@.current.case.len() > 0 {
                self@.tests.push(self@.current)
            } else {
                self@.tests
            }),
    {
        let TestAccumulator { mut tests, current } = self;
        if current.case.len() > 0 {
            let ghost t0 = tests@.map_values(|t: Test| t@);
            tests.push(current);
            proof {
                assert(tests@.map_values(|t: Test| t@) =~= t0.push(self@.current));
            }
        }
        tests
    }
}

} // verus!
