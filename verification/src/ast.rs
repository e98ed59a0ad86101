//! The statement tree a script parses to. A `Program` is built once from the
//! source text and never mutated afterwards; every node owns its text.

use vstd::prelude::*;

verus! {

/// An unresolved text span from the source. Interpolation of variable
/// references and escapes is deferred and repeated on every evaluation.
#[derive(Debug)]
pub struct Argument(pub Vec<char>);

/// A named operation and its ordered arguments.
#[derive(Debug)]
pub struct Command {
    pub name: Vec<char>,
    pub arguments: Vec<Argument>,
}

#[derive(Debug)]
pub enum Statement {
    Declaration { name: Vec<char>, value: Command },
    For { iterator: Command, statements: Vec<Statement> },
    Command(Command),
}

/// An ordered sequence of statements; order is execution order.
#[derive(Debug)]
pub struct Program(pub Vec<Statement>);

pub struct CommandView {
    pub name: Seq<char>,
    pub arguments: Seq<Seq<char>>,
}

pub enum StatementView {
    Declaration { name: Seq<char>, value: CommandView },
    For { iterator: CommandView, statements: Seq<StatementView> },
    Command(CommandView),
}

impl View for Argument {
    type V = Seq<char>;

    open spec fn view(&self) -> Seq<char> {
        self.0@
    }
}

impl View for Command {
    type V = CommandView;

    open spec fn view(&self) -> CommandView {
        CommandView {
            name: self.name@,
            arguments: self.arguments@.map_values(|a: Argument| a@),
        }
    }
}

impl View for Statement {
    type V = StatementView;

    open spec fn view(&self) -> StatementView
        decreases self,
    {
        match self {
            Statement::Declaration { name, value } => StatementView::Declaration {
                name: name@,
                value: value@,
            },
            Statement::For { iterator, statements } => StatementView::For {
                iterator: iterator@,
                statements: stmt_views_from(statements@, 0),
            },
            Statement::Command(command) => StatementView::Command(command@),
        }
    }
}

/// The views of the statements of `v` from index `i` on.
pub open spec fn stmt_views_from(v: Seq<Statement>, i: int) -> Seq<StatementView>
    decreases v, v.len() - i,
{
    if i < 0 || i >= v.len() {
        Seq::empty()
    } else {
        seq![v[i]@] + stmt_views_from(v, i + 1)
    }
}

/// The views of a statement vector's elements, in order.
pub open spec fn stmt_views(v: Vec<Statement>) -> Seq<StatementView> {
    stmt_views_from(v@, 0)
}

pub proof fn lemma_stmt_views_from(v: Seq<Statement>, i: int)
    requires
        0 <= i <= v.len(),
    ensures
        stmt_views_from(v, i).len() == v.len() - i,
        forall|j: int|
            0 <= j < stmt_views_from(v, i).len() ==> stmt_views_from(v, i)[j] == v[i + j]@,
    decreases v.len() - i,
{
    if i < v.len() {
        lemma_stmt_views_from(v, i + 1);
        assert(stmt_views_from(v, i) == seq![v[i]@] + stmt_views_from(v, i + 1));
        assert forall|j: int| 0 <= j < stmt_views_from(v, i).len() implies stmt_views_from(v, i)[j]
            == v[i + j]@ by {
            if j > 0 {
                assert(stmt_views_from(v, i)[j] == stmt_views_from(v, i + 1)[j - 1]);
            }
        }
    }
}

impl View for Program {
    type V = Seq<StatementView>;

    open spec fn view(&self) -> Seq<StatementView> {
        stmt_views(self.0)
    }
}

impl Argument {
    pub fn duplicate(&self) -> (r: Argument)
        ensures
            r@ == self@,
    {
        Argument(crate::text::sub_vec(&self.0, 0, self.0.len()))
    }
}

impl Command {
    pub fn duplicate(&self) -> (r: Command)
        ensures
            r@ == self@,
    {
        let name = crate::text::sub_vec(&self.name, 0, self.name.len());
        let mut arguments: Vec<Argument> = Vec::new();
        let mut i: usize = 0;
        while i < self.arguments.len()
            invariant
                i <= self.arguments@.len(),
                arguments@.len() == i,
                forall|j: int| 0 <= j < i ==> arguments@[j]@ == self.arguments@[j]@,
            decreases self.arguments@.len() - i,
        {
            arguments.push(self.arguments[i].duplicate());
            i += 1;
        }
        let r = Command { name, arguments };
        proof {
            assert(r@.arguments =~= self@.arguments);
            assert(r@.name =~= self@.name);
        }
        r
    }
}

impl Statement {
    #[verifier::loop_isolation(false)]
    pub fn duplicate(&self) -> (r: Statement)
        ensures
            r@ == self@,
        decreases self,
    {
        match self {
            Statement::Declaration { name, value } => {
                let n = crate::text::sub_vec(name, 0, name.len());
                proof {
                    assert(n@ =~= name@);
                }
                Statement::Declaration { name: n, value: value.duplicate() }
            },
            Statement::For { iterator, statements } => {
                let it = iterator.duplicate();
                let mut body: Vec<Statement> = Vec::new();
                let mut i: usize = 0;
                while i < statements.len()
                    invariant
                        i <= statements@.len(),
                        body@.len() == i,
                        forall|j: int| 0 <= j < i ==> body@[j]@ == statements@[j]@,
                    decreases statements@.len() - i,
                {
                    proof {
                        assert(decreases_to!(*self => self->For_statements));
                        assert(self->For_statements == *statements);
                        assert(decreases_to!(*statements => statements@));
                        assert(decreases_to!(statements@ => statements@[i as int]));
                    }
                    body.push(statements[i].duplicate());
                    i += 1;
                }
                let r = Statement::For { iterator: it, statements: body };
                proof {
                    lemma_stmt_views_from(body@, 0);
                    lemma_stmt_views_from(statements@, 0);
                    assert(stmt_views_from(body@, 0) =~= stmt_views_from(statements@, 0));
                }
                r
            },
            Statement::Command(command) => Statement::Command(command.duplicate()),
        }
    }
}

} // verus!
