use vstd::prelude::*;
use vstd::string::*;
use crate::text::push_str;

verus! {

/// The path segments, each after a `/`.
pub open spec fn url_path(path_params: Seq<Seq<char>>) -> Seq<char>
    decreases path_params.len(),
{
    if path_params.len() == 0 {
        Seq::empty()
    } else {
        url_path(path_params.drop_last()) + "/"@ + path_params.last()
    }
}

/// The query parameters as `?name=value&name=value...`.
pub open spec fn url_query(query_params: Seq<(Seq<char>, Seq<char>)>) -> Seq<char>
    decreases query_params.len(),
{
    if query_params.len() == 0 {
        Seq::empty()
    } else {
        let sep = if query_params.len() == 1 {
            "?"@
        } else {
            "&"@
        };
        url_query(query_params.drop_last()) + sep + query_params.last().0 + "="@
            + query_params.last().1
    }
}

/// The URL made of a base, path segments and query parameters, none of them escaped.
pub open spec fn url_spec(
    base_url: Seq<char>,
    path_params: Seq<Seq<char>>,
    query_params: Seq<(Seq<char>, Seq<char>)>,
) -> Seq<char> {
    base_url + url_path(path_params) + url_query(query_params)
}

/// Builds `base_url/path_1/path_2...?name_1=value_1&name_2=value_2...`.
pub fn build_url(base_url: &str, path_params: &[String], query_params: &[(String, String)]) -> (url:
    String)
    ensures
        url@ == url_spec(
            base_url@,
            path_params@.map_values(|p: String| p@),
            query_params@.map_values(|q: (String, String)| (q.0@, q.1@)),
        ),
{
    let ghost ps = path_params@.map_values(|p: String| p@);
    let ghost qs = query_params@.map_values(|q: (String, String)| (q.0@, q.1@));
    let mut url = String::from_str(base_url);
    let mut i: usize = 0;
    while i < path_params.len()
        invariant
            ps == path_params@.map_values(|p: String| p@),
            i <= path_params@.len(),
            url@ == base_url@ + url_path(ps.take(i as int)),
        decreases path_params@.len() - i,
    {
        push_str(&mut url, "/");
        push_str(&mut url, path_params[i].as_str());
        proof {
            assert(ps.take(i + 1).drop_last() =~= ps.take(i as int));
            assert(ps.take(i + 1).last() == path_params@[i as int]@);
        }
        i = i + 1;
    }
    proof {
        assert(ps.take(path_params@.len() as int) =~= ps);
    }
    let ghost with_path = url@;
    let mut j: usize = 0;
    while j < query_params.len()
        invariant
            qs == query_params@.map_values(|q: (String, String)| (q.0@, q.1@)),
            j <= query_params@.len(),
            url@ == with_path + url_query(qs.take(j as int)),
        decreases query_params@.len() - j,
    {
        if j == 0 {
            push_str(&mut url, "?");
        } else {
            push_str(&mut url, "&");
        }
        push_str(&mut url, query_params[j].0.as_str());
        push_str(&mut url, "=");
        push_str(&mut url, query_params[j].1.as_str());
        proof {
            assert(qs.take(j + 1).drop_last() =~= qs.take(j as int));
            assert(qs.take(j + 1).last() == (query_params@[j as int].0@, query_params@[j as int].1@));
        }
        j = j + 1;
    }
    proof {
        assert(qs.take(query_params@.len() as int) =~= qs);
    }
    url
}

} // verus!
