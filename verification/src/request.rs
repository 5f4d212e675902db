//! A parsed request: the request line and the headers that followed it.
//!
//! Reading bytes off the wire happens outside the library; the lines
//! that arrived before the blank line are handed in as plain text.

use vstd::prelude::*;

use crate::common::HttpHeader;
use crate::common::HttpMethod;
use crate::common::HttpRequestLine;
use crate::common::HttpVersion;
use crate::common::header_values_of;
use crate::common::space_fields;
use crate::strutil::find_char;
use crate::strutil::trim_spec;

verus! {

/// One request as parsed: its request line and its headers.
pub struct Request {
    pub request_line: HttpRequestLine,
    pub headers: Vec<HttpHeader>,
}

/// A line that parses as a header: it carries a colon.
pub open spec fn header_line_ok(s: Seq<char>) -> bool {
    find_char(s, ':') < s.len()
}

/// The indices of the lines that parse as headers, in order.
pub open spec fn header_indices(ls: Seq<Seq<char>>) -> Seq<int>
    decreases ls.len(),
{
    if ls.len() == 0 {
        Seq::empty()
    } else {
        let r = header_indices(ls.drop_last());
        if header_line_ok(ls.last()) {
            r.push(ls.len() - 1)
        } else {
            r
        }
    }
}

/// The header parsed out of a line: trimmed name before the first
/// colon, trimmed comma-separated values after it.
pub open spec fn header_matches(h: HttpHeader, s: Seq<char>) -> bool {
    let k = find_char(s, ':');
    &&& h.name@ == trim_spec(s.subrange(0, k))
    &&& h.values.deep_view() == header_values_of(s.subrange(k + 1, s.len() as int))
}

impl Request {
    /// Builds a request from the lines read before the blank line: the
    /// first line must be a request line; each following line that
    /// parses as a header is kept, in order, and the rest are dropped.
    pub fn from_lines(first: &str, header_lines: &Vec<String>) -> (r: Result<Request, ()>)
        ensures
            match r {
                Ok(req) => space_fields(first@).len() >= 3 && {
                    let f = space_fields(first@);
                    let idx = header_indices(header_lines.deep_view());
                    &&& (crate::common::eq_ignore_ascii_case(f[0], "GET"@)
                        ==> req.request_line.method is Get)
                    &&& (!crate::common::eq_ignore_ascii_case(f[0], "GET"@) ==> (
                    req.request_line.method matches crate::common::HttpMethod::Other(m) && m@
                        == crate::common::upper_seq(f[0])))
                    &&& req.request_line.path@ == f[1]
                    &&& req.request_line.http_version == crate::common::version_of(f[2])
                    &&& req.headers@.len() == idx.len()
                    &&& forall|k: int|
                        0 <= k < idx.len() ==> header_matches(
                            #[trigger] req.headers@[k],
                            header_lines.deep_view()[idx[k]],
                        )
                },
                Err(_) => space_fields(first@).len() < 3,
            },
    {
        let request_line = match HttpRequestLine::from_str(first) {
            Ok(rl) => rl,
            Err(_) => {
                return Err(());
            },
        };
        let n = header_lines.len();
        let mut headers: Vec<HttpHeader> = Vec::new();
        let mut i: usize = 0;
        proof {
            assert(header_lines.deep_view().subrange(0, 0) =~~= Seq::<Seq<char>>::empty());
        }
        while i < n
            invariant
                n == header_lines@.len(),
                i <= n,
                ({
                    let idx = header_indices(header_lines.deep_view().subrange(0, i as int));
                    &&& headers@.len() == idx.len()
                    &&& forall|k: int|
                        0 <= k < idx.len() ==> header_matches(
                            #[trigger] headers@[k],
                            header_lines.deep_view().subrange(0, i as int)[idx[k]],
                        )
                }),
            decreases n - i,
        {
            let ghost pre = header_lines.deep_view().subrange(0, i as int);
            let ghost post = header_lines.deep_view().subrange(0, i + 1);
            let ghost h0 = headers@;
            proof {
                assert(post.drop_last() =~~= pre);
                assert(post.last() == header_lines.deep_view()[i as int]);
                lemma_header_indices_valid(pre);
                lemma_header_indices_valid(post);
            }
            match HttpHeader::from_str(header_lines[i].as_str()) {
                Ok(h) => {
                    headers.push(h);
                    proof {
                        let idx = header_indices(post);
                        assert(idx == header_indices(pre).push(i as int));
                        assert forall|k: int| 0 <= k < idx.len() implies header_matches(
                            #[trigger] headers@[k],
                            post[idx[k]],
                        ) by {
                            if k < idx.len() - 1 {
                                assert(headers@[k] == h0[k]);
                                assert(idx[k] == header_indices(pre)[k]);
                                assert(post[idx[k]] == pre[idx[k]]);
                            } else {
                                assert(idx[k] == i as int);
                            }
                        }
                    }
                },
                Err(_) => {
                    proof {
                        let idx = header_indices(post);
                        assert(idx == header_indices(pre));
                        assert forall|k: int| 0 <= k < idx.len() implies header_matches(
                            #[trigger] headers@[k],
                            post[idx[k]],
                        ) by {
                            assert(post[idx[k]] == pre[idx[k]]);
                        }
                    }
                },
            }
            i = i + 1;
        }
        proof {
            assert(header_lines.deep_view().subrange(0, n as int) =~~= header_lines.deep_view());
        }
        Ok(Request { request_line, headers })
    }

    /// The request's method.
    pub fn method(&self) -> (r: &HttpMethod)
        ensures
            r == &self.request_line.method,
    {
        &self.request_line.method
    }

    /// The request's path, as it arrived.
    pub fn path(&self) -> (r: &str)
        ensures
            r@ == self.request_line.path@,
    {
        self.request_line.path.as_str()
    }

    /// The request's HTTP version.
    pub fn http_version(&self) -> (r: &HttpVersion)
        ensures
            r == &self.request_line.http_version,
    {
        &self.request_line.http_version
    }
}

/// Every header index is a valid index of a header-shaped line.
proof fn lemma_header_indices_valid(ls: Seq<Seq<char>>)
    ensures
        forall|k: int|
            0 <= k < header_indices(ls).len() ==> 0 <= #[trigger] header_indices(ls)[k] < ls.len(),
    decreases ls.len(),
{
    if ls.len() > 0 {
        lemma_header_indices_valid(ls.drop_last());
        let r = header_indices(ls.drop_last());
        assert forall|k: int| 0 <= k < header_indices(ls).len() implies 0
            <= #[trigger] header_indices(ls)[k] < ls.len() by {
            if k < r.len() {
                assert(header_indices(ls)[k] == r[k]);
            } else {
                assert(header_indices(ls)[k] == ls.len() - 1);
            }
        }
    }
}

} // verus!
