//! The accumulating response: status line, headers and a body source,
//! with a verified wire form for the head.

use vstd::prelude::*;

use crate::common::HttpHeader;
use crate::common::HttpVersion;
use crate::common::dec_digits;
use crate::common::http_prefix;
use crate::common::u64_to_string;
use crate::strutil::join_comma;
use vstd::string::StringSliceAdditionalSpecFns;

verus! {

/// Where the response body comes from: nothing, in-memory text, the
/// resolved file streamed off disk, the resolved directory's generated
/// listing, or the resolved file rendered as a template. The last three
/// read the resolved resource for their path and render context.
pub enum BodySource {
    Empty,
    Text(String),
    FileStream,
    GeneratedIndex,
    RenderedTemplate,
}

/// The first line of a response: version and status code.
pub struct HttpStatusLine {
    pub http_version: HttpVersion,
    pub status_code: u16,
}

/// The standard reason phrase of the status codes this server emits.
pub open spec fn reason_phrase(code: int) -> Seq<char> {
    if code == 200 {
        "OK"@
    } else if code == 301 {
        "Moved Permanently"@
    } else if code == 400 {
        "Bad Request"@
    } else if code == 404 {
        "Not Found"@
    } else if code == 405 {
        "Method Not Allowed"@
    } else if code == 500 {
        "Internal Server Error"@
    } else {
        "Unknown"@
    }
}

/// The reason phrase of a status code, as text.
pub fn reason_phrase_str(code: u16) -> (r: &'static str)
    ensures
        r@ == reason_phrase(code as int),
{
    if code == 200 {
        "OK"
    } else if code == 301 {
        "Moved Permanently"
    } else if code == 400 {
        "Bad Request"
    } else if code == 404 {
        "Not Found"
    } else if code == 405 {
        "Method Not Allowed"
    } else if code == 500 {
        "Internal Server Error"
    } else {
        "Unknown"
    }
}

/// The wire text of a status line: `HTTP/<v> <code> <phrase>`.
pub open spec fn status_line_text(sl: HttpStatusLine) -> Seq<char> {
    http_prefix() + dec_digits(sl.http_version.0 as int) + seq!['.'] + dec_digits(
        sl.http_version.1 as int,
    ) + seq![' '] + dec_digits(sl.status_code as int) + seq![' '] + reason_phrase(
        sl.status_code as int,
    )
}

impl HttpStatusLine {
    /// The status line as wire text.
    pub fn display(&self) -> (r: String)
        ensures
            r@ == status_line_text(*self),
    {
        let mut out = self.http_version.display();
        out.append(" ");
        let code = u64_to_string(self.status_code as u64);
        out.append(code.as_str());
        out.append(" ");
        out.append(reason_phrase_str(self.status_code));
        proof {
            reveal_strlit(" ");
            assert(" "@ =~= seq![' ']);
            assert(out@ =~= status_line_text(*self));
        }
        out
    }
}

/// The spec-level image of one header.
pub struct HeaderV {
    pub name: Seq<char>,
    pub values: Seq<Seq<char>>,
}

/// The spec-level image of one header.
pub open spec fn header_v(h: HttpHeader) -> HeaderV {
    HeaderV { name: h.name@, values: h.values.deep_view() }
}

/// The wire text of a header list: each header on its own line.
pub open spec fn headers_text(hs: Seq<HeaderV>) -> Seq<char>
    decreases hs.len(),
{
    if hs.len() == 0 {
        Seq::empty()
    } else {
        headers_text(hs.drop_last()) + seq!['\n'] + hs.last().name + seq![':', ' '] + join_comma(
            hs.last().values,
        )
    }
}

/// The accumulating response.
pub struct Response {
    pub status_line: HttpStatusLine,
    pub headers: Vec<HttpHeader>,
    pub body: BodySource,
}

impl Response {
    /// The spec-level image of the header list.
    pub open spec fn headers_v(&self) -> Seq<HeaderV> {
        self.headers@.map_values(|h: HttpHeader| header_v(h))
    }

    /// Whether a header with this name has been set.
    pub open spec fn has_header(&self, name: Seq<char>) -> bool {
        exists|i: int| 0 <= i < self.headers_v().len() && (#[trigger] self.headers_v()[i]).name == name
    }

    /// A fresh response: HTTP/1.1, the given status, the fixed
    /// server-identification header, no body.
    pub fn new(status_code: u16) -> (r: Response)
        ensures
            r.status_line.http_version == HttpVersion(1u8, 1u8),
            r.status_line.status_code == status_code,
            r.headers_v() =~= seq![
                HeaderV { name: "Server"@, values: seq!["polyserve (rust)"@] },
            ],
            r.body is Empty,
    {
        let mut values: Vec<String> = Vec::new();
        values.push(String::from_str("polyserve (rust)"));
        let mut headers: Vec<HttpHeader> = Vec::new();
        headers.push(HttpHeader::new("Server", values));
        let r = Response {
            status_line: HttpStatusLine { http_version: HttpVersion(1, 1), status_code },
            headers,
            body: BodySource::Empty,
        };
        proof {
            assert(r.headers_v().len() == 1);
            assert(r.headers_v()[0].name =~= "Server"@);
            assert(r.headers_v()[0].values =~~= seq!["polyserve (rust)"@]);
            assert(r.headers_v() =~~= seq![
                HeaderV { name: "Server"@, values: seq!["polyserve (rust)"@] },
            ]);
        }
        r
    }

    /// Appends one header.
    pub fn set_header(&mut self, name: &str, values: Vec<String>)
        ensures
            final(self).headers_v() =~= old(self).headers_v().push(
                HeaderV { name: name@, values: values.deep_view() },
            ),
            final(self).status_line == old(self).status_line,
            final(self).body == old(self).body,
    {
        let header = HttpHeader::new(name, values);
        self.headers.push(header);
        proof {
            assert(final(self).headers_v() =~~= old(self).headers_v().push(
                HeaderV { name: name@, values: values.deep_view() },
            ));
        }
    }

    /// The wire text of the head: status line, one line per header, and
    /// the blank line ending the head.
    pub fn head_string(&self) -> (r: String)
        ensures
            r@ == status_line_text(self.status_line) + headers_text(self.headers_v()) + seq![
                '\n',
                '\n',
            ],
    {
        let mut out = self.status_line.display();
        let n = self.headers.len();
        let mut i: usize = 0;
        proof {
            assert(self.headers_v().subrange(0, 0).len() == 0);
            assert(out@ =~= status_line_text(self.status_line) + headers_text(
                self.headers_v().subrange(0, 0),
            ));
        }
        while i < n
            invariant
                n == self.headers@.len(),
                i <= n,
                out@ == status_line_text(self.status_line) + headers_text(
                    self.headers_v().subrange(0, i as int),
                ),
            decreases n - i,
        {
            let ghost pre = self.headers_v().subrange(0, i as int);
            let ghost post = self.headers_v().subrange(0, i + 1);
            proof {
                assert(post.drop_last() =~= pre);
                assert(post.last() == self.headers_v()[i as int]);
            }
            out.append("\n");
            let line = self.headers[i].display();
            out.append(line.as_str());
            proof {
                reveal_strlit("\n");
                assert("\n"@ =~= seq!['\n']);
                assert(out@ =~= status_line_text(self.status_line) + headers_text(post));
            }
            i = i + 1;
        }
        out.append("\n\n");
        proof {
            reveal_strlit("\n\n");
            assert("\n\n"@ =~= seq!['\n', '\n']);
            assert(self.headers_v().subrange(0, n as int) =~= self.headers_v());
            assert(out@ =~= status_line_text(self.status_line) + headers_text(self.headers_v())
                + seq!['\n', '\n']);
        }
        out
    }

    /// The full payload of a bodyless response: zero content length,
    /// plain-text content type, the head.
    pub fn send_empty(self) -> (r: String)
        ensures
            ({
                let hs = self.headers_v().push(
                    HeaderV { name: "Content-Length"@, values: seq!["0"@] },
                ).push(
                    HeaderV {
                        name: "Content-Type"@,
                        values: seq!["text/plain; charset=UTF-8"@],
                    },
                );
                r@ == status_line_text(self.status_line) + headers_text(hs) + seq![
                    '\n',
                    '\n',
                ]
            }),
    {
        let mut resp = self;
        let mut lv: Vec<String> = Vec::new();
        lv.push(String::from_str("0"));
        proof {
            assert(lv.deep_view() =~~= seq!["0"@]);
        }
        resp.set_header("Content-Length", lv);
        let mut tv: Vec<String> = Vec::new();
        tv.push(String::from_str("text/plain; charset=UTF-8"));
        proof {
            assert(tv.deep_view() =~~= seq!["text/plain; charset=UTF-8"@]);
        }
        resp.set_header("Content-Type", tv);
        resp.head_string()
    }

    /// The full payload of a text response: the head with the body's
    /// byte length as content length, then the body.
    pub fn send_str(self, s: &str) -> (r: String)
        ensures
            ({
                let hs = self.headers_v().push(
                    HeaderV {
                        name: "Content-Length"@,
                        values: seq![dec_digits(s.spec_bytes().len() as usize as int)],
                    },
                );
                r@ == status_line_text(self.status_line) + headers_text(hs) + seq![
                    '\n',
                    '\n',
                ] + s@
            }),
    {
        let mut resp = self;
        let blen = s.len();
        let mut lv: Vec<String> = Vec::new();
        lv.push(u64_to_string(blen as u64));
        proof {
            assert(lv.deep_view() =~~= seq![dec_digits(s.spec_bytes().len() as usize as int)]);
        }
        resp.set_header("Content-Length", lv);
        let mut out = resp.head_string();
        out.append(s);
        out
    }

    /// The head of a file response: the file's size as content length.
    /// The caller streams the file's bytes after it.
    pub fn send_file(self, file_size: u64) -> (r: String)
        ensures
            ({
                let hs = self.headers_v().push(
                    HeaderV {
                        name: "Content-Length"@,
                        values: seq![dec_digits(file_size as int)],
                    },
                );
                r@ == status_line_text(self.status_line) + headers_text(hs) + seq![
                    '\n',
                    '\n',
                ]
            }),
    {
        let mut resp = self;
        let mut lv: Vec<String> = Vec::new();
        lv.push(u64_to_string(file_size));
        proof {
            assert(lv.deep_view() =~~= seq![dec_digits(file_size as int)]);
        }
        resp.set_header("Content-Length", lv);
        resp.head_string()
    }
}

impl Default for Response {
    /// The default response: not found.
    fn default() -> (r: Response)
        ensures
            r.status_line.status_code == 404,
            r.status_line.http_version == HttpVersion(1u8, 1u8),
            r.headers_v() =~= seq![
                HeaderV { name: "Server"@, values: seq!["polyserve (rust)"@] },
            ],
            r.body is Empty,
    {
        Response::new(404)
    }
}

} // verus!
