//! The argument interpolator. An argument's raw text is expanded fresh on
//! every evaluation: `$NAME` references are resolved against the variable
//! store and then the injected environment snapshot, and backslash escapes
//! are applied in a single pass.

use vstd::prelude::*;

use crate::ast::Argument;
use crate::context::{lookup, Context, Environment};
use crate::text;

verus! {

/// What one interpolation pass yields: the expanded text, the diagnostics
/// written to the error stream, and whether the pass completed (an argument
/// ending in a lone backslash cannot).
#[verifier::ext_equal]
pub struct InterpView {
    pub text: Seq<char>,
    pub diags: Seq<Seq<char>>,
    pub ok: bool,
}

/// End of the variable name starting at `i`: the first index holding a
/// character that is neither alphanumeric nor an underscore.
pub open spec fn ref_end(s: Seq<char>, i: int) -> int
    decreases s.len() - i,
{
    if i < 0 || i >= s.len() {
        s.len() as int
    } else if text::is_alphanumeric_char(s[i]) || s[i] == '_' {
        ref_end(s, i + 1)
    } else {
        i
    }
}

/// The diagnostic for an unresolvable variable reference.
pub open spec fn missing_reference_diag(name: Seq<char>) -> Seq<char> {
    "Could not find reference "@ + name
}

/// The diagnostic for an unknown escape character.
pub open spec fn unknown_escape_diag(c: char) -> Seq<char> {
    "unknown escape '"@ + seq![c] + seq!['\'']
}

pub open spec fn interp_prepend(text: Seq<char>, diags: Seq<Seq<char>>, rest: InterpView)
    -> InterpView {
    InterpView { text: text + rest.text, diags: diags + rest.diags, ok: rest.ok }
}

/// One interpolation pass over `s` from index `i`, against the variable
/// store `ctx` and the environment snapshot `env`. `$NAME` takes the maximal
/// alphanumeric/underscore run as the name; the name `ctx` expands to the
/// store's dump; otherwise the store is consulted first, the environment
/// second, and a missing reference expands to nothing with one diagnostic.
/// The escapes `\n`, `\t`, `\r` produce their control character, `\\` one
/// backslash that is not reinterpreted, `\"` nothing; any other escaped
/// character is dropped with a diagnostic. A lone backslash at the end stops
/// the pass.
pub open spec fn interp_from(
    s: Seq<char>,
    i: int,
    ctx: Seq<(Seq<char>, Seq<char>)>,
    env: Seq<(Seq<char>, Seq<char>)>,
) -> InterpView
    decreases s.len() - i,
    via interp_from_dec
{
    if i < 0 || i >= s.len() {
        InterpView { text: Seq::empty(), diags: Seq::empty(), ok: true }
    } else if s[i] == '$' {
        let end = ref_end(s, i + 1);
        let name = s.subrange(i + 1, end);
        let rest = interp_from(s, end, ctx, env);
        if name == seq!['c', 't', 'x'] {
            interp_prepend(crate::context::dump_context(ctx), Seq::empty(), rest)
        } else {
            match lookup(ctx, name) {
                Some(v) => interp_prepend(v, Seq::empty(), rest),
                None => match lookup(env, name) {
                    Some(v) => interp_prepend(v, Seq::empty(), rest),
                    None => interp_prepend(
                        Seq::empty(),
                        seq![missing_reference_diag(name)],
                        rest,
                    ),
                },
            }
        }
    } else if s[i] == '\\' {
        if i + 1 >= s.len() {
            InterpView { text: Seq::empty(), diags: Seq::empty(), ok: false }
        } else {
            let c = s[i + 1];
            let rest = interp_from(s, i + 2, ctx, env);
            if c == 'n' {
                interp_prepend(seq!['\n'], Seq::empty(), rest)
            } else if c == 't' {
                interp_prepend(seq!['\t'], Seq::empty(), rest)
            } else if c == 'r' {
                interp_prepend(seq!['\r'], Seq::empty(), rest)
            } else if c == '\\' {
                interp_prepend(seq!['\\'], Seq::empty(), rest)
            } else if c == '"' {
                rest
            } else {
                interp_prepend(Seq::empty(), seq![unknown_escape_diag(c)], rest)
            }
        }
    } else {
        interp_prepend(seq![s[i]], Seq::empty(), interp_from(s, i + 1, ctx, env))
    }
}

proof fn lemma_ref_end_bounds(s: Seq<char>, i: int)
    requires
        0 <= i <= s.len(),
    ensures
        i <= ref_end(s, i) <= s.len(),
        forall|j: int| i <= j < ref_end(s, i) ==> text::is_alphanumeric_char(s[j]) || s[j] == '_',
        ref_end(s, i) < s.len() ==> !(text::is_alphanumeric_char(s[ref_end(s, i)]) || s[ref_end(
            s,
            i,
        )] == '_'),
    decreases s.len() - i,
{
    if i < s.len() && (text::is_alphanumeric_char(s[i]) || s[i] == '_') {
        lemma_ref_end_bounds(s, i + 1);
    }
}

#[via_fn]
proof fn interp_from_dec(
    s: Seq<char>,
    i: int,
    ctx: Seq<(Seq<char>, Seq<char>)>,
    env: Seq<(Seq<char>, Seq<char>)>,
) {
    if 0 <= i < s.len() {
        if i + 1 <= s.len() {
            lemma_ref_end_bounds(s, i + 1);
        }
    }
}

/// An undefined variable reference with no matching environment variable
/// evaluates to empty text and writes exactly one diagnostic naming it.
pub proof fn lemma_missing_reference(
    name: Seq<char>,
    ctx: Seq<(Seq<char>, Seq<char>)>,
    env: Seq<(Seq<char>, Seq<char>)>,
)
    requires
        name.len() > 0,
        forall|i: int|
            0 <= i < name.len() ==> text::is_alphanumeric_char(name[i]) || name[i] == '_',
        name != seq!['c', 't', 'x'],
        lookup(ctx, name) is None,
        lookup(env, name) is None,
    ensures
        interp_from(seq!['$'] + name, 0, ctx, env) == (InterpView {
            text: Seq::empty(),
            diags: seq![missing_reference_diag(name)],
            ok: true,
        }),
{
    let s = seq!['$'] + name;
    assert(s[0] == '$');
    lemma_ref_end_all_name(s, 1);
    assert(s.subrange(1, s.len() as int) =~= name);
    let rest = interp_from(s, s.len() as int, ctx, env);
    assert(rest == InterpView {
        text: Seq::<char>::empty(),
        diags: Seq::<Seq<char>>::empty(),
        ok: true,
    });
    assert(interp_from(s, 0, ctx, env) =~= InterpView {
        text: Seq::empty(),
        diags: seq![missing_reference_diag(name)],
        ok: true,
    });
}

/// A reference to a bound name expands to exactly the stored text:
/// interpolation only reads the store, so whatever a declaration bound is
/// handed out verbatim, never evaluated again.
pub proof fn lemma_bound_reference(
    name: Seq<char>,
    v: Seq<char>,
    ctx: Seq<(Seq<char>, Seq<char>)>,
    env: Seq<(Seq<char>, Seq<char>)>,
)
    requires
        name.len() > 0,
        forall|i: int|
            0 <= i < name.len() ==> text::is_alphanumeric_char(name[i]) || name[i] == '_',
        name != seq!['c', 't', 'x'],
        lookup(ctx, name) == Some(v),
    ensures
        interp_from(seq!['$'] + name, 0, ctx, env) == (InterpView {
            text: v,
            diags: Seq::empty(),
            ok: true,
        }),
{
    let s = seq!['$'] + name;
    assert(s[0] == '$');
    lemma_ref_end_all_name(s, 1);
    assert(s.subrange(1, s.len() as int) =~= name);
    let rest = interp_from(s, s.len() as int, ctx, env);
    assert(rest == InterpView {
        text: Seq::<char>::empty(),
        diags: Seq::<Seq<char>>::empty(),
        ok: true,
    });
    assert(interp_from(s, 0, ctx, env) =~= InterpView {
        text: v,
        diags: Seq::empty(),
        ok: true,
    });
}

proof fn lemma_ref_end_all_name(s: Seq<char>, i: int)
    requires
        0 <= i <= s.len(),
        forall|j: int| i <= j < s.len() ==> text::is_alphanumeric_char(s[j]) || s[j] == '_',
    ensures
        ref_end(s, i) == s.len(),
    decreases s.len() - i,
{
    if i < s.len() {
        lemma_ref_end_all_name(s, i + 1);
    }
}

/// What interpolating the whole argument yields.
pub open spec fn spec_interpolate(
    s: Seq<char>,
    ctx: Seq<(Seq<char>, Seq<char>)>,
    env: Seq<(Seq<char>, Seq<char>)>,
) -> InterpView {
    interp_from(s, 0, ctx, env)
}

/// An expanded argument: its effective text for this one evaluation, and
/// the diagnostics the expansion wrote.
pub struct Interpolated {
    pub text: Vec<char>,
    pub diagnostics: Vec<Vec<char>>,
}

pub open spec fn diag_views(v: Seq<Vec<char>>) -> Seq<Seq<char>> {
    crate::parsing::views_of(v)
}

/// Interpolates one argument. The flag reports whether the pass finished;
/// it cannot on the one malformed input, text ending in a lone backslash,
/// which aborts the run. The diagnostics written up to that point are
/// returned either way.
#[verifier::loop_isolation(false)]
pub fn evaluate_argument(argument: &Argument, ctx: &Context, environment: &Environment) -> (r: (
    Interpolated,
    bool,
))
    ensures
        ({
            let iv = spec_interpolate(argument@, ctx.entries(), environment.entries());
            r.1 == iv.ok && r.0.text@ == iv.text && diag_views(r.0.diagnostics@) == iv.diags
        }),
{
    let s = &argument.0;
    let ghost ce = ctx.entries();
    let ghost ee = environment.entries();
    let ghost full = interp_from(s@, 0, ce, ee);
    let mut text_out: Vec<char> = Vec::new();
    let mut diags: Vec<Vec<char>> = Vec::new();
    let mut i: usize = 0;
    proof {
        assert(full =~= interp_prepend(text_out@, diag_views(diags@), interp_from(s@, 0, ce, ee)));
    }
    while i < s.len()
        invariant
            i <= s@.len(),
            full == interp_prepend(
                text_out@,
                diag_views(diags@),
                interp_from(s@, i as int, ce, ee),
            ),
        decreases s@.len() - i,
    {
        let ghost i0 = i as int;
        let ghost t0 = text_out@;
        let ghost d0 = diag_views(diags@);
        let c = s[i];
        if c == '$' {
            proof {
                lemma_ref_end_bounds(s@, i + 1);
            }
            let mut end: usize = i + 1;
            while end < s.len() && (text::char_alphanumeric(s[end]) || s[end] == '_')
                invariant
                    i + 1 <= end <= s@.len(),
                    ref_end(s@, i + 1) == ref_end(s@, end as int),
                decreases s@.len() - end,
            {
                end += 1;
            }
            proof {
                assert(ref_end(s@, end as int) == end as int);
            }
            let name = text::sub_vec(s, i + 1, end);
            let is_ctx = name.len() == 3 && name[0] == 'c' && name[1] == 't' && name[2] == 'x';
            proof {
                if is_ctx {
                    assert(name@ =~= seq!['c', 't', 'x']);
                } else {
                    assert(name@ != seq!['c', 't', 'x']);
                }
            }
            if is_ctx {
                let dump = ctx.dump();
                text::push_all(&mut text_out, &dump);
                proof {
                    lemma_interp_step(
                        full,
                        t0,
                        d0,
                        crate::context::dump_context(ce),
                        Seq::empty(),
                        s@,
                        end as int,
                        ce,
                        ee,
                    );
                }
            } else {
                match ctx.get(&name) {
                    Some(v) => {
                        text::push_all(&mut text_out, &v);
                        proof {
                            lemma_interp_step(full, t0, d0, v@, Seq::empty(), s@, end as int, ce, ee);
                        }
                    },
                    None => {
                        match environment.get(&name) {
                            Some(v) => {
                                text::push_all(&mut text_out, &v);
                                proof {
                                    lemma_interp_step(
                                        full,
                                        t0,
                                        d0,
                                        v@,
                                        Seq::empty(),
                                        s@,
                                        end as int,
                                        ce,
                                        ee,
                                    );
                                }
                            },
                            None => {
                                let mut d: Vec<char> = Vec::new();
                                text::push_str(&mut d, "Could not find reference ");
                                text::push_all(&mut d, &name);
                                let ghost dv = diag_views(diags@);
                                proof {
                                    assert(d@ == missing_reference_diag(name@));
                                }
                                diags.push(d);
                                proof {
                                    assert(diag_views(diags@) =~= dv + seq![
                                        missing_reference_diag(name@),
                                    ]);
                                    lemma_interp_step(
                                        full,
                                        t0,
                                        d0,
                                        Seq::empty(),
                                        seq![missing_reference_diag(name@)],
                                        s@,
                                        end as int,
                                        ce,
                                        ee,
                                    );
                                }
                            },
                        }
                    },
                }
            }
            i = end;
        } else if c == '\\' {
            if i + 1 >= s.len() {
                proof {
                    assert(interp_from(s@, i0, ce, ee) == InterpView {
                        text: Seq::<char>::empty(),
                        diags: Seq::<Seq<char>>::empty(),
                        ok: false,
                    });
                    assert(full.text =~= text_out@);
                    assert(full.diags =~= diag_views(diags@));
                    assert(!full.ok);
                }
                return (Interpolated { text: text_out, diagnostics: diags }, false);
            }
            let e = s[i + 1];
            if e == 'n' {
                text_out.push('\n');
                proof {
                    assert(text_out@ =~= t0 + seq!['\n']);
                    lemma_interp_step(full, t0, d0, seq!['\n'], Seq::empty(), s@, i0 + 2, ce, ee);
                }
            } else if e == 't' {
                text_out.push('\t');
                proof {
                    assert(text_out@ =~= t0 + seq!['\t']);
                    lemma_interp_step(full, t0, d0, seq!['\t'], Seq::empty(), s@, i0 + 2, ce, ee);
                }
            } else if e == 'r' {
                text_out.push('\r');
                proof {
                    assert(text_out@ =~= t0 + seq!['\r']);
                    lemma_interp_step(full, t0, d0, seq!['\r'], Seq::empty(), s@, i0 + 2, ce, ee);
                }
            } else if e == '\\' {
                text_out.push('\\');
                proof {
                    assert(text_out@ =~= t0 + seq!['\\']);
                    lemma_interp_step(full, t0, d0, seq!['\\'], Seq::empty(), s@, i0 + 2, ce, ee);
                }
            } else if e == '"' {
                proof {
                    assert(t0 =~= t0 + Seq::<char>::empty());
                    assert(d0 =~= d0 + Seq::<Seq<char>>::empty());
                    lemma_interp_step(
                        full,
                        t0,
                        d0,
                        Seq::empty(),
                        Seq::empty(),
                        s@,
                        i0 + 2,
                        ce,
                        ee,
                    );
                }
            } else {
                let mut d: Vec<char> = Vec::new();
                text::push_str(&mut d, "unknown escape '");
                d.push(e);
                d.push('\'');
                let ghost dv = diag_views(diags@);
                proof {
                    assert(d@ =~= unknown_escape_diag(e));
                }
                diags.push(d);
                proof {
                    assert(diag_views(diags@) =~= dv + seq![unknown_escape_diag(e)]);
                    lemma_interp_step(
                        full,
                        t0,
                        d0,
                        Seq::empty(),
                        seq![unknown_escape_diag(e)],
                        s@,
                        i0 + 2,
                        ce,
                        ee,
                    );
                }
            }
            i = i + 2;
        } else {
            text_out.push(c);
            proof {
                assert(text_out@ =~= t0 + seq![s@[i0]]);
                lemma_interp_step(full, t0, d0, seq![s@[i0]], Seq::empty(), s@, i0 + 1, ce, ee);
            }
            i = i + 1;
        }
    }
    proof {
        assert(full =~= InterpView { text: text_out@, diags: diag_views(diags@), ok: true });
    }
    (Interpolated { text: text_out, diagnostics: diags }, true)
}

/// Moves one step's text and diagnostics from the remaining pass into the
/// already-emitted prefix.
proof fn lemma_interp_step(
    full: InterpView,
    t0: Seq<char>,
    d0: Seq<Seq<char>>,
    st: Seq<char>,
    sd: Seq<Seq<char>>,
    s: Seq<char>,
    ni: int,
    ctx: Seq<(Seq<char>, Seq<char>)>,
    env: Seq<(Seq<char>, Seq<char>)>,
)
    requires
        full == interp_prepend(t0, d0, interp_prepend(st, sd, interp_from(s, ni, ctx, env))),
    ensures
        full == interp_prepend(t0 + st, d0 + sd, interp_from(s, ni, ctx, env)),
{
    let rest = interp_from(s, ni, ctx, env);
    assert(t0 + (st + rest.text) =~= (t0 + st) + rest.text);
    assert(d0 + (sd + rest.diags) =~= (d0 + sd) + rest.diags);
    assert(interp_prepend(t0, d0, interp_prepend(st, sd, rest)) =~= interp_prepend(
        t0 + st,
        d0 + sd,
        rest,
    ));
}

} // verus!
