//! Merging a request's params into its url's query string, as done when a
//! send snapshot is taken. A param whose name is empty is left out; when no
//! param has a name, the url is unchanged.

use vstd::prelude::*;
use crate::model::pairs_view;
use crate::strings::chars_of;
use crate::strings::string_from_chars;

verus! {

/// The query-string contribution of one param: `&name=value`, or nothing
/// when the name is empty.
pub open spec fn param_frag(p: (Seq<char>, Seq<char>)) -> Seq<char> {
    if p.0.len() == 0 {
        Seq::empty()
    } else {
        seq!['&'] + p.0 + seq!['='] + p.1
    }
}

/// The concatenated query fragments of all params, each starting with `&`.
pub open spec fn query_frag(ps: Seq<(Seq<char>, Seq<char>)>) -> Seq<char>
    decreases ps.len(),
{
    if ps.len() == 0 {
        Seq::empty()
    } else {
        param_frag(ps[0]) + query_frag(ps.drop_first())
    }
}

/// The url with the params merged into its query string: unchanged when no
/// param has a name, else the url, `?`, and the `name=value` pairs joined
/// by `&`.
pub open spec fn merged_url(url: Seq<char>, ps: Seq<(Seq<char>, Seq<char>)>) -> Seq<char> {
    if query_frag(ps).len() == 0 {
        url
    } else {
        url + seq!['?'] + query_frag(ps).drop_first()
    }
}

proof fn lemma_query_frag_push(ps: Seq<(Seq<char>, Seq<char>)>, p: (Seq<char>, Seq<char>))
    ensures
        query_frag(ps.push(p)) == query_frag(ps) + param_frag(p),
    decreases ps.len(),
{
    if ps.len() == 0 {
        assert(ps.push(p)[0] == p);
        assert(ps.push(p).drop_first() =~= Seq::<(Seq<char>, Seq<char>)>::empty());
        assert(query_frag(ps.push(p)) == param_frag(p) + query_frag(
            Seq::<(Seq<char>, Seq<char>)>::empty(),
        ));
        assert(query_frag(ps.push(p)) =~= query_frag(ps) + param_frag(p));
    } else {
        assert(ps.push(p)[0] == ps[0]);
        lemma_query_frag_push(ps.drop_first(), p);
        assert(ps.push(p).drop_first() =~= ps.drop_first().push(p));
        assert(query_frag(ps.push(p)) =~= query_frag(ps) + param_frag(p));
    }
}

/// The url of a send snapshot: `url` with `params` merged into the query
/// string.
pub fn build_merged_url(url: &String, params: &Vec<(String, String)>) -> (r: String)
    ensures
        r@ == merged_url(url@, pairs_view(params@)),
{
    let ghost ps = pairs_view(params@);
    let mut frag: Vec<char> = Vec::new();
    let mut i: usize = 0;
    while i < params.len()
        invariant
            i <= params.len(),
            ps == pairs_view(params@),
            frag@ == query_frag(ps.take(i as int)),
        decreases params.len() - i,
    {
        proof {
            assert(ps[i as int] == (params@[i as int].0@, params@[i as int].1@));
        }
        if params[i].0.as_str().unicode_len() > 0 {
            frag.push('&');
            let mut kc = chars_of(params[i].0.as_str());
            frag.append(&mut kc);
            frag.push('=');
            let mut vc = chars_of(params[i].1.as_str());
            frag.append(&mut vc);
        }
        proof {
            lemma_query_frag_push(ps.take(i as int), ps[i as int]);
            assert(ps.take(i + 1 as int) =~= ps.take(i as int).push(ps[i as int]));
            assert(frag@ =~= query_frag(ps.take(i + 1 as int)));
        }
        i = i + 1;
    }
    proof {
        assert(ps.take(params.len() as int) =~= ps);
    }
    if frag.len() == 0 {
        url.clone()
    } else {
        let mut out = url.clone();
        out.append("?");
        let _first = frag.remove(0);
        let fs = string_from_chars(&frag);
        out.append(fs.as_str());
        proof {
            reveal_strlit("?");
            assert(out@ =~= merged_url(url@, ps));
        }
        out
    }
}

} // verus!
