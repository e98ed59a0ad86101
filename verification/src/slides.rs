//! The location header a slide page carries: every element of the chain
//! but the last, joined and wrapped in a heading tag.

use vstd::prelude::*;

use crate::text;

verus! {

/// The elements joined by ` / `.
pub open spec fn joined_parts(parts: Seq<Seq<char>>) -> Seq<char>
    decreases parts.len(),
{
    if parts.len() == 0 {
        Seq::empty()
    } else if parts.len() == 1 {
        parts[0]
    } else {
        joined_parts(parts.drop_last()) + seq![' ', '/', ' '] + parts.last()
    }
}

/// The heading markup for a location chain: nothing for an empty chain;
/// otherwise all elements but the last, joined by ` / `, inside an `h5`
/// tag.
pub open spec fn spec_join(parts: Seq<Seq<char>>) -> Seq<char> {
    if parts.len() == 0 {
        Seq::empty()
    } else {
        "<h5 class=\"location\">"@ + joined_parts(parts.drop_last()) + "</h5>"@
    }
}

/// Renders the location header of a slide.
#[verifier::loop_isolation(false)]
pub fn join(parts: &Vec<String>) -> (r: String)
    ensures
        r@ == spec_join(text::string_views(parts@)),
{
    let ghost pv = text::string_views(parts@);
    if parts.len() == 0 {
        let r = String::new();
        proof {
            assert(r@ =~= spec_join(pv));
        }
        return r;
    }
    let n = parts.len();
    let mut out: Vec<char> = Vec::new();
    text::push_str(&mut out, "<h5 class=\"location\">");
    proof {
        assert(" / "@ =~= seq![' ', '/', ' ']) by {
            reveal_strlit(" / ");
        }
    }
    let mut i: usize = 0;
    proof {
        assert(out@ =~= "<h5 class=\"location\">"@ + joined_parts(pv.drop_last().subrange(0, 0)));
    }
    while i + 1 < n
        invariant
            n == parts@.len(),
            parts@.len() >= 1,
            i <= parts@.len() - 1,
            pv == text::string_views(parts@),
            out@ == "<h5 class=\"location\">"@ + joined_parts(pv.drop_last().subrange(0, i as int)),
        decreases parts@.len() - i,
    {
        if i > 0 {
            text::push_str(&mut out, " / ");
        }
        text::push_str(&mut out, parts[i].as_str());
        i += 1;
        proof {
            let ghost pfx = pv.drop_last().subrange(0, i as int);
            assert(pfx.drop_last() =~= pv.drop_last().subrange(0, i - 1));
            assert(pfx.last() == pv[i - 1]);
            if i == 1 {
                assert(out@ =~= "<h5 class=\"location\">"@ + joined_parts(pfx));
            } else {
                assert(out@ =~= "<h5 class=\"location\">"@ + joined_parts(pfx));
            }
        }
    }
    text::push_str(&mut out, "</h5>");
    proof {
        assert(pv.drop_last().subrange(0, pv.len() - 1) =~= pv.drop_last());
        assert(out@ =~= spec_join(pv));
    }
    text::chars_to_string(&out)
}

} // verus!
