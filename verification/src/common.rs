//! The HTTP vocabulary: methods, versions, request lines and headers,
//! with verified parsing and formatting.

use vstd::prelude::*;

use crate::strutil::find_char;
use crate::strutil::join_comma;
use crate::strutil::split_on;
use crate::strutil::split_spec;
use crate::strutil::str_eq;
use crate::strutil::str_find;
use crate::strutil::str_join_comma;
use crate::strutil::str_trim;
use crate::strutil::trim_spec;

verus! {

/// The upper-case code point of an ASCII character, else the code point.
pub open spec fn upper_code(c: char) -> u32 {
    if 97 <= c as u32 && c as u32 <= 122 {
        (c as u32 - 32) as u32
    } else {
        c as u32
    }
}

/// ASCII-case-insensitive equality of two character sequences.
pub open spec fn eq_ignore_ascii_case(a: Seq<char>, b: Seq<char>) -> bool {
    a.len() == b.len() && forall|i: int| 0 <= i < a.len() ==> upper_code(a[i]) == upper_code(b[i])
}

/// The ASCII upper-case form of a character: a lowercase letter becomes
/// its uppercase form, everything else is unchanged.
pub open spec fn upper_char(c: char) -> char {
    if 97 <= c as u32 && c as u32 <= 122 {
        ((c as u32 - 32) as u32) as char
    } else {
        c
    }
}

/// The ASCII upper-case form of a character sequence.
pub open spec fn upper_seq(s: Seq<char>) -> Seq<char> {
    s.map_values(|c: char| upper_char(c))
}

/// Relies on str::to_ascii_uppercase: ASCII lowercase letters become
/// their uppercase forms and every other character is unchanged.
#[verifier::external_body]
fn to_ascii_upper(s: &str) -> (r: String)
    ensures
        r@ == upper_seq(s@),
{
    s.to_ascii_uppercase()
}

/// A decimal digit.
pub open spec fn is_digit(c: char) -> bool {
    48 <= c as u32 <= 57
}

/// The value of a decimal digit.
pub open spec fn digit_val(c: char) -> int {
    c as u32 - 48
}

/// A non-empty, all-digit sequence.
pub open spec fn all_digits(s: Seq<char>) -> bool {
    s.len() > 0 && forall|i: int| 0 <= i < s.len() ==> is_digit(#[trigger] s[i])
}

/// The number a digit sequence denotes.
pub open spec fn digits_val(s: Seq<char>) -> int
    decreases s.len(),
{
    if s.len() == 0 {
        0
    } else {
        digits_val(s.drop_last()) * 10 + digit_val(s.last())
    }
}

/// The digit character of a value below ten.
pub open spec fn digit_char(d: int) -> char {
    if d == 0 {
        '0'
    } else if d == 1 {
        '1'
    } else if d == 2 {
        '2'
    } else if d == 3 {
        '3'
    } else if d == 4 {
        '4'
    } else if d == 5 {
        '5'
    } else if d == 6 {
        '6'
    } else if d == 7 {
        '7'
    } else if d == 8 {
        '8'
    } else {
        '9'
    }
}

/// The shortest decimal form of a non-negative number.
pub open spec fn dec_digits(n: int) -> Seq<char>
    decreases n,
{
    if n < 10 {
        seq![digit_char(n)]
    } else {
        dec_digits(n / 10).push(digit_char(n % 10))
    }
}

/// The digit character of a value below ten, as text.
fn digit_str(d: u8) -> (r: &'static str)
    requires
        d < 10,
    ensures
        r@ == seq![digit_char(d as int)],
{
    proof {
        reveal_strlit("0");
        reveal_strlit("1");
        reveal_strlit("2");
        reveal_strlit("3");
        reveal_strlit("4");
        reveal_strlit("5");
        reveal_strlit("6");
        reveal_strlit("7");
        reveal_strlit("8");
        reveal_strlit("9");
    }
    match d {
        0 => "0",
        1 => "1",
        2 => "2",
        3 => "3",
        4 => "4",
        5 => "5",
        6 => "6",
        7 => "7",
        8 => "8",
        _ => {
            proof {
                assert(d == 9);
            }
            "9"
        },
    }
}

/// Formats a number in decimal.
pub fn u64_to_string(n: u64) -> (r: String)
    ensures
        r@ == dec_digits(n as int),
    decreases n,
{
    if n < 10 {
        let s = String::from_str(digit_str(n as u8));
        proof {
            assert(s@ =~= dec_digits(n as int));
        }
        s
    } else {
        let mut s = u64_to_string(n / 10);
        s.append(digit_str((n % 10) as u8));
        proof {
            assert(s@ =~= dec_digits(n as int));
        }
        s
    }
}

/// Parses a number of at most three digits.
pub fn parse_u8(s: &str) -> (r: Option<u8>)
    ensures
        match r {
            Some(v) => all_digits(s@) && s@.len() <= 3 && digits_val(s@) == v as int && v <= 255,
            None => s@.len() > 3 || !all_digits(s@) || digits_val(s@) > 255,
        },
{
    let n = s.unicode_len();
    if n == 0 || n > 3 {
        return None;
    }
    let mut acc: u32 = 0;
    let mut i: usize = 0;
    proof {
        assert(s@.subrange(0, 0) =~= Seq::<char>::empty());
    }
    while i < n
        invariant
            n == s@.len(),
            0 < n <= 3,
            i <= n,
            acc == digits_val(s@.subrange(0, i as int)),
            i == 0 ==> acc == 0,
            i <= 1 ==> acc < 10,
            i <= 2 ==> acc < 100,
            acc < 1000,
            forall|j: int| 0 <= j < i ==> is_digit(#[trigger] s@[j]),
        decreases n - i,
    {
        let c = s.get_char(i);
        let code = c as u32;
        if code < 48 || code > 57 {
            assert(!is_digit(s@[i as int]));
            return None;
        }
        proof {
            assert(s@.subrange(0, i + 1).drop_last() =~= s@.subrange(0, i as int));
            assert(s@.subrange(0, i + 1).last() == s@[i as int]);
        }
        acc = acc * 10 + (code - 48);
        i = i + 1;
    }
    proof {
        assert(s@.subrange(0, n as int) =~= s@);
    }
    if acc > 255 {
        return None;
    }
    Some(acc as u8)
}

/// An HTTP request method: `GET`, or any other token in upper case.
pub enum HttpMethod {
    Get,
    Other(String),
}

impl HttpMethod {
    /// Reads a method token; `GET` in any case becomes `Get`, everything
    /// else is kept in its ASCII upper-case form.
    pub fn from_str(s: &str) -> (r: HttpMethod)
        ensures
            eq_ignore_ascii_case(s@, "GET"@) ==> r is Get,
            !eq_ignore_ascii_case(s@, "GET"@) ==> (r matches HttpMethod::Other(m) && m@
                == upper_seq(s@)),
    {
        proof {
            reveal_strlit("GET");
        }
        let n = s.unicode_len();
        if n == 3 {
            let c0 = s.get_char(0) as u32;
            let c1 = s.get_char(1) as u32;
            let c2 = s.get_char(2) as u32;
            if (c0 == 71 || c0 == 103) && (c1 == 69 || c1 == 101) && (c2 == 84 || c2 == 116) {
                proof {
                    assert(upper_code(s@[0]) == 71 && upper_code(s@[1]) == 69 && upper_code(
                        s@[2],
                    ) == 84);
                    assert(upper_code("GET"@[0]) == 71 && upper_code("GET"@[1]) == 69
                        && upper_code("GET"@[2]) == 84);
                }
                return HttpMethod::Get;
            }
            proof {
                if eq_ignore_ascii_case(s@, "GET"@) {
                    assert(upper_code(s@[0]) == upper_code("GET"@[0]));
                    assert(upper_code(s@[1]) == upper_code("GET"@[1]));
                    assert(upper_code(s@[2]) == upper_code("GET"@[2]));
                }
            }
            return HttpMethod::Other(to_ascii_upper(s));
        }
        HttpMethod::Other(to_ascii_upper(s))
    }

    /// The method as request-line text, in ASCII upper case.
    pub fn display(&self) -> (r: String)
        ensures
            match self {
                HttpMethod::Get => r@ == "GET"@,
                HttpMethod::Other(m) => r@ == upper_seq(m@),
            },
    {
        match self {
            HttpMethod::Get => String::from_str("GET"),
            HttpMethod::Other(m) => to_ascii_upper(m.as_str()),
        }
    }
}

/// An HTTP version: major and minor number.
pub struct HttpVersion(pub u8, pub u8);

/// The version prefix of a version token.
pub open spec fn http_prefix() -> Seq<char> {
    seq!['H', 'T', 'T', 'P', '/']
}

/// A short digit run denoting a number that fits in one byte.
pub open spec fn byte_digits(s: Seq<char>) -> bool {
    all_digits(s) && s.len() <= 3 && digits_val(s) <= 255
}

/// What a version token denotes: the two numbers around the first `.`
/// after `HTTP/`, with 1.1 as the fallback for every malformed form.
pub open spec fn version_of(v: Seq<char>) -> HttpVersion {
    if !(v.len() >= 5 && v.subrange(0, 5) == http_prefix()) {
        HttpVersion(1u8, 1u8)
    } else {
        let rest = v.subrange(5, v.len() as int);
        let k = find_char(rest, '.');
        if k >= rest.len() {
            HttpVersion(1u8, 1u8)
        } else {
            let ma = rest.subrange(0, k);
            let mi = rest.subrange(k + 1, rest.len() as int);
            if byte_digits(ma) && byte_digits(mi) {
                HttpVersion(digits_val(ma) as u8, digits_val(mi) as u8)
            } else {
                HttpVersion(1u8, 1u8)
            }
        }
    }
}

impl HttpVersion {
    /// Reads `HTTP/<major>.<minor>`. A token without the prefix, without
    /// a dot, or whose numbers cannot be read falls back to 1.1.
    pub fn from_str(s: &str) -> (r: HttpVersion)
        ensures
            r == version_of(s@),
    {
        proof {
            reveal_strlit("HTTP/");
            assert("HTTP/"@ =~= http_prefix());
        }
        let n = s.unicode_len();
        if n < 5 {
            return HttpVersion(1, 1);
        }
        let prefix = s.substring_char(0, 5);
        if !str_eq(prefix, "HTTP/") {
            return HttpVersion(1, 1);
        }
        let rest = s.substring_char(5, n);
        let restn = rest.unicode_len();
        let k = str_find(rest, '.');
        if k >= restn {
            return HttpVersion(1, 1);
        }
        let ma = parse_u8(rest.substring_char(0, k));
        let mi = parse_u8(rest.substring_char(k + 1, restn));
        match (ma, mi) {
            (Some(major), Some(minor)) => HttpVersion(major, minor),
            _ => HttpVersion(1, 1),
        }
    }

    /// The version as request-line text: `HTTP/<major>.<minor>`.
    pub fn display(&self) -> (r: String)
        ensures
            r@ == http_prefix() + dec_digits(self.0 as int) + seq!['.'] + dec_digits(
                self.1 as int,
            ),
    {
        let mut s = String::from_str("HTTP/");
        let maj = u64_to_string(self.0 as u64);
        s.append(maj.as_str());
        s.append(".");
        let min = u64_to_string(self.1 as u64);
        s.append(min.as_str());
        proof {
            reveal_strlit("HTTP/");
            reveal_strlit(".");
            assert(s@ =~= http_prefix() + dec_digits(self.0 as int) + seq!['.'] + dec_digits(
                self.1 as int,
            ));
        }
        s
    }
}

/// The non-empty space-separated fields of a line.
pub open spec fn nonempty_fields(ps: Seq<Seq<char>>) -> Seq<Seq<char>> {
    ps.filter(|p: Seq<char>| p.len() > 0)
}

/// The non-empty space-separated fields of a line.
pub open spec fn space_fields(s: Seq<char>) -> Seq<Seq<char>> {
    nonempty_fields(split_spec(s, ' '))
}

/// Splits a line into its non-empty space-separated fields.
pub fn fields_of(s: &str) -> (r: Vec<String>)
    ensures
        r.deep_view() == space_fields(s@),
{
    let pieces = split_on(s, ' ');
    let n = pieces.len();
    let mut out: Vec<String> = Vec::new();
    let mut i: usize = 0;
    proof {
        reveal(Seq::filter);
        assert(pieces.deep_view().subrange(0, 0) =~~= Seq::<Seq<char>>::empty());
        assert(out.deep_view() =~~= nonempty_fields(pieces.deep_view().subrange(0, 0)));
    }
    while i < n
        invariant
            n == pieces@.len(),
            i <= n,
            out.deep_view() == nonempty_fields(pieces.deep_view().subrange(0, i as int)),
        decreases n - i,
    {
        let ghost pre = pieces.deep_view().subrange(0, i as int);
        let ghost post = pieces.deep_view().subrange(0, i + 1);
        let ghost dv0 = out.deep_view();
        proof {
            reveal(Seq::filter);
            assert(post.drop_last() =~~= pre);
            assert(post.last() == pieces.deep_view()[i as int]);
        }
        if pieces[i].as_str().unicode_len() > 0 {
            out.push(pieces[i].clone());
            proof {
                reveal(Seq::filter);
                assert(out.deep_view() =~~= dv0.push(pieces.deep_view()[i as int]));
                assert(nonempty_fields(post) == nonempty_fields(pre).push(post.last()));
            }
        } else {
            proof {
                reveal(Seq::filter);
                assert(nonempty_fields(post) == nonempty_fields(pre));
            }
        }
        i = i + 1;
    }
    proof {
        assert(pieces.deep_view().subrange(0, n as int) =~~= pieces.deep_view());
    }
    out
}

/// The first line of a request: method, path, version.
pub struct HttpRequestLine {
    pub method: HttpMethod,
    pub path: String,
    pub http_version: HttpVersion,
}

impl HttpRequestLine {
    /// Reads a request line. The first three space-separated fields are
    /// the method, the path and the version; fewer than three is a
    /// malformed request.
    pub fn from_str(s: &str) -> (r: Result<HttpRequestLine, ()>)
        ensures
            match r {
                Ok(rl) => space_fields(s@).len() >= 3 && {
                    let f = space_fields(s@);
                    &&& (eq_ignore_ascii_case(f[0], "GET"@) ==> rl.method is Get)
                    &&& (!eq_ignore_ascii_case(f[0], "GET"@) ==> (rl.method matches
                    HttpMethod::Other(m) && m@ == upper_seq(f[0])))
                    &&& rl.path@ == f[1]
                    &&& rl.http_version == version_of(f[2])
                },
                Err(_) => space_fields(s@).len() < 3,
            },
    {
        let fields = fields_of(s);
        if fields.len() < 3 {
            return Err(());
        }
        let method = HttpMethod::from_str(fields[0].as_str());
        let path = fields[1].clone();
        let http_version = HttpVersion::from_str(fields[2].as_str());
        Ok(HttpRequestLine { method, path, http_version })
    }

    /// The request line as text: `<method> <path> <version>`.
    pub fn display(&self) -> (r: String)
        ensures
            ({
                let m = match self.method {
                    HttpMethod::Get => "GET"@,
                    HttpMethod::Other(mm) => upper_seq(mm@),
                };
                r@ == m + seq![' '] + self.path@ + seq![' '] + http_prefix() + dec_digits(
                    self.http_version.0 as int,
                ) + seq!['.'] + dec_digits(self.http_version.1 as int)
            }),
    {
        let mut out = self.method.display();
        out.append(" ");
        out.append(self.path.as_str());
        out.append(" ");
        let v = self.http_version.display();
        out.append(v.as_str());
        proof {
            reveal_strlit(" ");
            assert(" "@ =~= seq![' ']);
            let m = match &self.method {
                HttpMethod::Get => "GET"@,
                HttpMethod::Other(mm) => upper_seq(mm@),
            };
            assert(out@ =~= m + seq![' '] + self.path@ + seq![' '] + http_prefix() + dec_digits(
                self.http_version.0 as int,
            ) + seq!['.'] + dec_digits(self.http_version.1 as int));
        }
        out
    }
}

/// One header: a name and its comma-separated values.
pub struct HttpHeader {
    pub name: String,
    pub values: Vec<String>,
}

/// Each piece trimmed.
pub open spec fn trimmed_all(ps: Seq<Seq<char>>) -> Seq<Seq<char>> {
    ps.map_values(|p: Seq<char>| trim_spec(p))
}

/// The values of a header line: the text after the colon, split on
/// commas, each piece trimmed.
pub open spec fn header_values_of(rest: Seq<char>) -> Seq<Seq<char>> {
    trimmed_all(split_spec(rest, ','))
}

impl HttpHeader {
    /// A header from a name and its values.
    pub fn new(name: &str, values: Vec<String>) -> (r: HttpHeader)
        ensures
            r.name@ == name@,
            r.values == values,
    {
        HttpHeader { name: name.to_owned(), values }
    }

    /// Reads a `name: values` line; the name and each comma-separated
    /// value are trimmed. A line without a colon is no header.
    pub fn from_str(s: &str) -> (r: Result<HttpHeader, ()>)
        ensures
            match r {
                Ok(h) => {
                    let k = find_char(s@, ':');
                    &&& k < s@.len()
                    &&& h.name@ == trim_spec(s@.subrange(0, k))
                    &&& h.values.deep_view() == header_values_of(
                        s@.subrange(k + 1, s@.len() as int),
                    )
                },
                Err(_) => find_char(s@, ':') >= s@.len(),
            },
    {
        let n = s.unicode_len();
        let k = str_find(s, ':');
        if k >= n {
            return Err(());
        }
        let name = str_trim(s.substring_char(0, k));
        let rest = s.substring_char(k + 1, n);
        let pieces = split_on(rest, ',');
        let m = pieces.len();
        let mut values: Vec<String> = Vec::new();
        let mut i: usize = 0;
        proof {
            assert(values.deep_view() =~~= trimmed_all(split_spec(rest@, ',').subrange(0, 0)));
        }
        while i < m
            invariant
                m == pieces@.len(),
                pieces.deep_view() == split_spec(rest@, ','),
                i <= m,
                values.deep_view() == trimmed_all(split_spec(rest@, ',').subrange(0, i as int)),
            decreases m - i,
        {
            let ghost dv0 = values.deep_view();
            let v = str_trim(pieces[i].as_str());
            values.push(v);
            proof {
                let target = trimmed_all(split_spec(rest@, ',').subrange(0, i + 1));
                assert(dv0.len() == i);
                assert(values@.len() == i + 1);
                assert(values.deep_view().len() == values@.len());
                assert(target.len() == i + 1);
                assert forall|t: int| 0 <= t < i + 1 implies values.deep_view()[t] =~= target[t] by {
                    if t < i {
                        assert(values.deep_view()[t] == dv0[t]);
                        assert(dv0[t] == trimmed_all(
                            split_spec(rest@, ',').subrange(0, i as int),
                        )[t]);
                    } else {
                        assert(values.deep_view()[t] == trim_spec(pieces.deep_view()[i as int]));
                    }
                }
                assert(values.deep_view() =~~= target);
            }
            i = i + 1;
        }
        proof {
            assert(split_spec(rest@, ',').subrange(0, m as int) =~~= split_spec(rest@, ','));
        }
        Ok(HttpHeader { name, values })
    }

    /// The header as wire text: `name: v1,v2`.
    pub fn display(&self) -> (r: String)
        ensures
            r@ == self.name@ + seq![':', ' '] + join_comma(self.values.deep_view()),
    {
        let mut out = self.name.clone();
        out.append(": ");
        let joined = str_join_comma(&self.values);
        out.append(joined.as_str());
        proof {
            reveal_strlit(": ");
            assert(": "@ =~= seq![':', ' ']);
            assert(out@ =~= self.name@ + seq![':', ' '] + join_comma(self.values.deep_view()));
        }
        out
    }
}

} // verus!
