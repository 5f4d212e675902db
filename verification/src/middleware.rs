//! The ordered request-handling chain.
//!
//! Each stage reads the shared per-request record and either lets the
//! chain continue or ends it with a status. A stage that has fully
//! written the body ends the chain with a success status; the
//! early-return filter turns success back into `Continue` for the
//! outermost layer, while redirects and errors pass through unchanged.
//! The order is fixed: resolve the resource (which also freezes the
//! per-request configuration), gate the method, normalize the trailing
//! slash, then produce the body — generated listing, rendered template,
//! or the file itself — with not-found as the fall-through.

use vstd::prelude::*;

use crate::request_config::ConfigV;
use crate::request_config::RequestConfig;
use crate::request_config::cascade_v;
use crate::request_config::default_config_v;
use crate::resource::Resource;
use crate::resource::uri_rel_path;
use crate::response::BodySource;
use crate::response::HeaderV;
use crate::response::Response;
use crate::strutil::ends_with_char;
use crate::vfs::FsSnapshot;
use crate::vfs::ancestor_texts;

verus! {

/// What a stage decides: let the rest of the chain run, or end the
/// request with this status code.
#[derive(PartialEq, Eq, Structural, Clone, Copy, Debug)]
pub enum Outcome {
    Continue,
    Handled(u16),
}

/// The early-return filter: a success-class or informational status
/// means "fully handled" and becomes `Continue` for the stages further
/// out; redirects, client errors and server errors propagate.
pub fn early_return(o: Outcome) -> (r: Outcome)
    ensures
        r == match o {
            Outcome::Continue => Outcome::Continue,
            Outcome::Handled(c) => if 300 <= c < 600 {
                Outcome::Handled(c)
            } else {
                Outcome::Continue
            },
        },
{
    match o {
        Outcome::Continue => Outcome::Continue,
        Outcome::Handled(c) => {
            if 300 <= c && c < 600 {
                Outcome::Handled(c)
            } else {
                Outcome::Continue
            }
        },
    }
}

/// The per-request record threaded through the chain: the request data,
/// the resolved resource, the frozen configuration and the accumulating
/// response.
pub struct RequestContext {
    pub method: String,
    pub uri_path: String,
    pub res: Option<Resource>,
    pub config: RequestConfig,
    pub response: Response,
}

impl RequestContext {
    /// A fresh record for one request: nothing resolved, the default
    /// configuration, the default (not-found) response.
    pub fn new(method: &str, uri_path: &str) -> (r: RequestContext)
        ensures
            r.method@ == method@,
            r.uri_path@ == uri_path@,
            r.res is None,
            r.config.server.view_spec() == default_config_v(),
            r.response.status_line.status_code == 404,
            r.response.headers_v() =~= seq![
                HeaderV { name: "Server"@, values: seq!["polyserve (rust)"@] },
            ],
            r.response.body is Empty,
    {
        RequestContext {
            method: method.to_owned(),
            uri_path: uri_path.to_owned(),
            res: None,
            config: RequestConfig::default(),
            response: Response::default(),
        }
    }
}

/// What urlencoding makes of a percent-encoded string is a function of
/// that string alone.
pub uninterp spec fn decoded_of(s: Seq<char>) -> Option<Seq<char>>;

/// Relies on urlencoding::decode: percent-sequences become the bytes
/// they name and every other character passes through unchanged, so a
/// string without `%` decodes to itself; decoding fails exactly when the
/// decoded bytes are not valid text.
#[verifier::external_body]
fn decode_uri(s: &str) -> (r: Option<String>)
    ensures
        (r is Some) == (decoded_of(s@) is Some),
        r matches Some(d) ==> decoded_of(s@) == Some(d@),
        r matches Some(d) ==> (!crate::strutil::contains_char(s@, '%') ==> d@ == s@),
        r is Some <== !crate::strutil::contains_char(s@, '%'),
{
    match urlencoding::decode(s) {
        Ok(c) => Some(c.into_owned()),
        Err(_) => None,
    }
}

/// What mime_guess makes of a file name is a function of that name alone.
pub uninterp spec fn mime_of_name(name: Seq<char>) -> Option<Seq<char>>;

/// Relies on mime_guess::from_path and mime::Mime::essence_str: the type
/// guessed from the file name's extension, without parameters; `None`
/// when the extension is unknown.
#[verifier::external_body]
fn guess_mime(name: &str) -> (r: Option<String>)
    ensures
        match r {
            Some(m) => mime_of_name(name@) == Some(m@),
            None => mime_of_name(name@) is None,
        },
{
    match mime_guess::from_path(name).first() {
        Some(m) => Some(m.essence_str().to_owned()),
        None => None,
    }
}

/// The override texts along the ancestor chain of `p`, as the cascade
/// sees them.
pub open spec fn texts_v(snap: FsSnapshot, p: Seq<Seq<char>>) -> Seq<Option<Seq<char>>> {
    Seq::new(p.len() + 1, |k: int| snap.override_text_at(p.subrange(0, k)))
}

/// The configuration a request for `p` is served under.
pub open spec fn effective_config(snap: FsSnapshot, p: Seq<Seq<char>>) -> ConfigV {
    cascade_v(default_config_v(), texts_v(snap, p))
}

/// What the resolution stage leaves in the record: for a decodable path
/// inside the root, the cascade configuration of the candidate path and
/// the resolved resource under it; otherwise nothing resolvable and the
/// default configuration.
pub open spec fn resolution_holds(uri: Seq<char>, c: RequestContext, snap: FsSnapshot) -> bool {
    match decoded_of(uri) {
        None => c.res matches Some(r) && r is NotFound && c.config.server.view_spec()
            == default_config_v(),
        Some(d) => match uri_rel_path(d) {
            None => c.res matches Some(r) && r is NotFound && c.config.server.view_spec()
                == default_config_v(),
            Some(p) => c.config.server.view_spec() == effective_config(snap, p) && (
            c.res matches Some(r) && crate::resource::resolve_rel(
                snap,
                effective_config(snap, p),
                p,
                d,
                r,
            )),
        },
    }
}

/// The resolution stage: decodes the request path, freezes the cascade
/// configuration of the candidate path, and stores the resolved
/// resource. A path that cannot be decoded or escapes the root stores
/// nothing resolvable and keeps the default configuration.
pub fn resolve_resource(ctx: &mut RequestContext, snap: &FsSnapshot)
    requires
        snap.wf(),
    ensures
        final(ctx).method == old(ctx).method,
        final(ctx).uri_path == old(ctx).uri_path,
        final(ctx).response == old(ctx).response,
        resolution_holds(old(ctx).uri_path@, *final(ctx), *snap),
{
    let decoded = match decode_uri(ctx.uri_path.as_str()) {
        Some(d) => d,
        None => {
            ctx.res = Some(Resource::NotFound);
            ctx.config = RequestConfig::default();
            return ;
        },
    };
    match crate::resource::uri_to_path(decoded.as_str()) {
        None => {
            ctx.res = Some(Resource::NotFound);
            ctx.config = RequestConfig::default();
        },
        Some(p) => {
            let texts = ancestor_texts(snap, &p);
            proof {
                assert(texts.deep_view() =~~= texts_v(*snap, p.deep_view()));
            }
            ctx.config = RequestConfig::generate_from_ancestors(&texts);
            let r = Resource::resolve(snap, decoded.as_str(), &ctx.config.server);
            ctx.res = Some(r);
        },
    }
}

/// Whether the configured method list admits this method.
pub open spec fn method_allowed(c: RequestContext) -> bool {
    c.config.server.allow_methods.deep_view().contains(c.method@)
}

/// The method gate: a method outside the configured list is rejected,
/// with 405 against a resolved resource and 404 against nothing —
/// resolution precedes method gating, and an unresolvable path stays a
/// plain not-found so the tree's layout does not leak.
pub fn allow_methods(ctx: &RequestContext) -> (r: Outcome)
    ensures
        r == if method_allowed(*ctx) {
            Outcome::Continue
        } else if ctx.res matches Some(rr) && !(rr is NotFound) {
            Outcome::Handled(405u16)
        } else {
            Outcome::Handled(404u16)
        },
{
    let n = ctx.config.server.allow_methods.len();
    let mut i: usize = 0;
    while i < n
        invariant
            n == ctx.config.server.allow_methods@.len(),
            i <= n,
            forall|j: int|
                0 <= j < i ==> ctx.config.server.allow_methods.deep_view()[j] != ctx.method@,
        decreases n - i,
    {
        if crate::strutil::str_eq(ctx.config.server.allow_methods[i].as_str(), ctx.method.as_str())
        {
            assert(ctx.config.server.allow_methods.deep_view()[i as int] == ctx.method@);
            return Outcome::Continue;
        }
        i = i + 1;
    }
    proof {
        assert(!method_allowed(*ctx));
    }
    match &ctx.res {
        Some(rr) => match rr {
            Resource::NotFound => Outcome::Handled(404),
            _ => Outcome::Handled(405),
        },
        None => Outcome::Handled(404),
    }
}

/// Whether this request is redirected to its trailing-slash form: the
/// target is a directory served through an index file or a generated
/// listing, the request path lacks the slash, and the configuration
/// asks for the redirect.
pub open spec fn wants_slash_redirect(c: RequestContext) -> bool {
    &&& c.config.server.force_trailing_slash
    &&& !ends_with_char(c.uri_path@, '/')
    &&& match c.res {
        Some(Resource::File(f)) => f.is_index,
        Some(Resource::Index(_)) => true,
        _ => false,
    }
}

/// The trailing-slash stage: a directory request without the slash is
/// answered with a permanent redirect to the slashed form.
pub fn trailing_slash(ctx: &mut RequestContext) -> (r: Outcome)
    ensures
        r == if wants_slash_redirect(*old(ctx)) {
            Outcome::Handled(301u16)
        } else {
            Outcome::Continue
        },
        wants_slash_redirect(*old(ctx)) ==> final(ctx).response.headers_v() == old(ctx).response.headers_v().push(
            HeaderV { name: "Location"@, values: seq![old(ctx).uri_path@ + seq!['/']] },
        ) && final(ctx).response.status_line == old(ctx).response.status_line && final(ctx).response.body == old(ctx).response.body,
        !wants_slash_redirect(*old(ctx)) ==> *final(ctx) == *old(ctx),
        final(ctx).method == old(ctx).method,
        final(ctx).uri_path == old(ctx).uri_path,
        final(ctx).res == old(ctx).res,
        final(ctx).config == old(ctx).config,
{
    if !ctx.config.server.force_trailing_slash {
        return Outcome::Continue;
    }
    if crate::strutil::str_ends_with(ctx.uri_path.as_str(), '/') {
        return Outcome::Continue;
    }
    let applies = match &ctx.res {
        Some(Resource::File(f)) => f.is_index,
        Some(Resource::Index(_)) => true,
        _ => false,
    };
    if !applies {
        return Outcome::Continue;
    }
    let mut location = ctx.uri_path.clone();
    location.append("/");
    proof {
        reveal_strlit("/");
        assert("/"@ =~= seq!['/']);
        assert(location@ =~= old(ctx).uri_path@ + seq!['/']);
    }
    let mut values: Vec<String> = Vec::new();
    values.push(location);
    proof {
        assert(values.deep_view() =~~= seq![old(ctx).uri_path@ + seq!['/']]);
    }
    ctx.response.set_header("Location", values);
    proof {
        assert(final(ctx).response.headers_v() =~~= old(ctx).response.headers_v().push(
            HeaderV { name: "Location"@, values: seq![old(ctx).uri_path@ + seq!['/']] },
        ));
    }
    Outcome::Handled(301)
}

/// The generated-listing stage: a resolved directory listing is the
/// response body, as HTML.
pub fn auto_index(ctx: &mut RequestContext) -> (r: Outcome)
    ensures
        r == if old(ctx).res matches Some(Resource::Index(_)) {
            Outcome::Handled(200u16)
        } else {
            Outcome::Continue
        },
        old(ctx).res matches Some(Resource::Index(_)) ==> final(ctx).response.body
            is GeneratedIndex && final(ctx).response.headers_v() == old(ctx).response.headers_v().push(
            HeaderV { name: "Content-Type"@, values: seq!["text/html; charset=utf-8"@] },
        ) && final(ctx).response.status_line == old(ctx).response.status_line,
        !(old(ctx).res matches Some(Resource::Index(_))) ==> *final(ctx) == *old(ctx),
        final(ctx).method == old(ctx).method,
        final(ctx).uri_path == old(ctx).uri_path,
        final(ctx).res == old(ctx).res,
        final(ctx).config == old(ctx).config,
{
    let applies = match &ctx.res {
        Some(Resource::Index(_)) => true,
        _ => false,
    };
    if !applies {
        return Outcome::Continue;
    }
    let mut values: Vec<String> = Vec::new();
    values.push(String::from_str("text/html; charset=utf-8"));
    proof {
        assert(values.deep_view() =~~= seq!["text/html; charset=utf-8"@]);
    }
    ctx.response.set_header("Content-Type", values);
    ctx.response.body = BodySource::GeneratedIndex;
    proof {
        assert(final(ctx).response.headers_v() =~~= old(ctx).response.headers_v().push(
            HeaderV { name: "Content-Type"@, values: seq!["text/html; charset=utf-8"@] },
        ));
    }
    Outcome::Handled(200)
}

/// A name ending in `.hbs` (and longer than the bare suffix).
pub open spec fn has_hbs_ext(name: Seq<char>) -> bool {
    name.len() > 4 && name.subrange(name.len() - 4, name.len() as int) == seq!['.', 'h', 'b', 's']
}

/// Whether the resolved file is rendered as a template: the convention
/// is the `.hbs` extension, under the `render_hbs` setting.
pub open spec fn render_applies(c: RequestContext) -> bool {
    &&& c.config.server.render_hbs
    &&& match c.res {
        Some(Resource::File(f)) => f.abs_path@.len() > 0 && has_hbs_ext(
            f.abs_path.deep_view().last(),
        ),
        _ => false,
    }
}

/// Whether this file name ends in `.hbs`.
fn name_has_hbs_ext(name: &String) -> (r: bool)
    ensures
        r == has_hbs_ext(name@),
{
    let n = name.as_str().unicode_len();
    if n <= 4 {
        return false;
    }
    let c0 = name.as_str().get_char(n - 4);
    let c1 = name.as_str().get_char(n - 3);
    let c2 = name.as_str().get_char(n - 2);
    let c3 = name.as_str().get_char(n - 1);
    let r = c0 == '.' && c1 == 'h' && c2 == 'b' && c3 == 's';
    proof {
        let tail = name@.subrange(name@.len() - 4, name@.len() as int);
        assert(tail[0] == name@[name@.len() - 4]);
        assert(tail[1] == name@[name@.len() - 3]);
        assert(tail[2] == name@[name@.len() - 2]);
        assert(tail[3] == name@[name@.len() - 1]);
        if r {
            assert(tail =~= seq!['.', 'h', 'b', 's']);
        } else {
            assert(tail != seq!['.', 'h', 'b', 's']);
        }
    }
    r
}

/// The template stage: a resolved file named by the template convention
/// is rendered as the response body.
pub fn render_hbs(ctx: &mut RequestContext) -> (r: Outcome)
    ensures
        r == if render_applies(*old(ctx)) {
            Outcome::Handled(200u16)
        } else {
            Outcome::Continue
        },
        render_applies(*old(ctx)) ==> final(ctx).response.body is RenderedTemplate && final(ctx).response.headers_v() == old(ctx).response.headers_v().push(
            HeaderV { name: "Content-Type"@, values: seq!["text/html; charset=utf-8"@] },
        ) && final(ctx).response.status_line == old(ctx).response.status_line,
        !render_applies(*old(ctx)) ==> *final(ctx) == *old(ctx),
        final(ctx).method == old(ctx).method,
        final(ctx).uri_path == old(ctx).uri_path,
        final(ctx).res == old(ctx).res,
        final(ctx).config == old(ctx).config,
{
    if !ctx.config.server.render_hbs {
        return Outcome::Continue;
    }
    let applies = match &ctx.res {
        Some(Resource::File(f)) => {
            if f.abs_path.len() > 0 {
                name_has_hbs_ext(&f.abs_path[f.abs_path.len() - 1])
            } else {
                false
            }
        },
        _ => false,
    };
    if !applies {
        return Outcome::Continue;
    }
    let mut values: Vec<String> = Vec::new();
    values.push(String::from_str("text/html; charset=utf-8"));
    proof {
        assert(values.deep_view() =~~= seq!["text/html; charset=utf-8"@]);
    }
    ctx.response.set_header("Content-Type", values);
    ctx.response.body = BodySource::RenderedTemplate;
    proof {
        assert(final(ctx).response.headers_v() =~~= old(ctx).response.headers_v().push(
            HeaderV { name: "Content-Type"@, values: seq!["text/html; charset=utf-8"@] },
        ));
    }
    Outcome::Handled(200)
}

/// Whether the file-serving stage serves: a `GET` against a resolved file.
pub open spec fn serve_applies(c: RequestContext) -> bool {
    c.method@ == "GET"@ && c.res matches Some(Resource::File(_))
}

/// The content type served for a file: the guess from its name, or
/// plain text when nothing is known.
pub open spec fn served_mime(name: Seq<char>) -> Seq<char> {
    match mime_of_name(name) {
        Some(m) => m,
        None => "text/plain; charset=utf-8"@,
    }
}

/// The file-serving stage, the chain's terminal: a `GET` against a
/// resolved file streams that file with its guessed content type (and
/// names the substituted location when the file was found by
/// convention); everything else is not found, as plain text.
pub fn serve_file(ctx: &mut RequestContext) -> (r: Outcome)
    ensures
        r == if serve_applies(*old(ctx)) {
            Outcome::Handled(200u16)
        } else {
            Outcome::Handled(404u16)
        },
        serve_applies(*old(ctx)) ==> final(ctx).response.body is FileStream && (old(ctx).res matches Some(Resource::File(f)) ==> {
            let ct = HeaderV {
                name: "Content-Type"@,
                values: seq![served_mime(crate::resource::ctx_name_spec(f.abs_path.deep_view()))],
            };
            if f.is_implicit {
                final(ctx).response.headers_v() == old(ctx).response.headers_v().push(
                    HeaderV {
                        name: "Content-Location"@,
                        values: seq![url_path_text(f.abs_path.deep_view())],
                    },
                ).push(ct)
            } else {
                final(ctx).response.headers_v() == old(ctx).response.headers_v().push(ct)
            }
        }),
        !serve_applies(*old(ctx)) ==> final(ctx).response.body == old(ctx).response.body && final(ctx).response.headers_v() == old(ctx).response.headers_v().push(
            HeaderV { name: "Content-Type"@, values: seq!["text/plain; charset=utf-8"@] },
        ),
        final(ctx).response.status_line == old(ctx).response.status_line,
        final(ctx).method == old(ctx).method,
        final(ctx).uri_path == old(ctx).uri_path,
        final(ctx).res == old(ctx).res,
        final(ctx).config == old(ctx).config,
{
    let is_get = crate::strutil::str_eq(ctx.method.as_str(), "GET");
    proof {
        reveal_strlit("GET");
    }
    let applies = is_get && match &ctx.res {
        Some(Resource::File(_)) => true,
        _ => false,
    };
    if !applies {
        let mut values: Vec<String> = Vec::new();
        values.push(String::from_str("text/plain; charset=utf-8"));
        proof {
            assert(values.deep_view() =~~= seq!["text/plain; charset=utf-8"@]);
        }
        ctx.response.set_header("Content-Type", values);
        proof {
            assert(final(ctx).response.headers_v() =~~= old(ctx).response.headers_v().push(
                HeaderV { name: "Content-Type"@, values: seq!["text/plain; charset=utf-8"@] },
            ));
        }
        return Outcome::Handled(404);
    }
    let (name, implicit, fdv): (String, bool, Ghost<Seq<Seq<char>>>) = match &ctx.res {
        Some(Resource::File(f)) => {
            let nm = if f.abs_path.len() > 0 {
                f.abs_path[f.abs_path.len() - 1].clone()
            } else {
                String::from_str("(unknown)")
            };
            proof {
                reveal_strlit("(unknown)");
            }
            (nm, f.is_implicit, Ghost(f.abs_path.deep_view()))
        },
        _ => {
            (String::new(), false, Ghost(Seq::empty()))
        },
    };
    if implicit {
        let loc = match &ctx.res {
            Some(Resource::File(f)) => url_of_path(&f.abs_path),
            _ => String::new(),
        };
        let mut lvalues: Vec<String> = Vec::new();
        lvalues.push(loc);
        proof {
            assert(lvalues.deep_view() =~~= seq![url_path_text(fdv@)]);
        }
        ctx.response.set_header("Content-Location", lvalues);
    }
    let ct = match guess_mime(name.as_str()) {
        Some(m) => m,
        None => String::from_str("text/plain; charset=utf-8"),
    };
    let mut values: Vec<String> = Vec::new();
    values.push(ct);
    proof {
        assert(values.deep_view() =~~= seq![served_mime(crate::resource::ctx_name_spec(fdv@))]);
    }
    ctx.response.set_header("Content-Type", values);
    ctx.response.body = BodySource::FileStream;
    Outcome::Handled(200)
}

/// The status a resolved request ends with, read off the frozen record:
/// the method gate first, then the trailing-slash redirect, then the
/// body-producing stages in their fixed order, not-found as the
/// fall-through.
pub open spec fn chain_code(c: RequestContext) -> int {
    if !method_allowed(c) {
        if c.res matches Some(r) && !(r is NotFound) {
            405
        } else {
            404
        }
    } else if wants_slash_redirect(c) {
        301
    } else if c.res matches Some(Resource::Index(_)) {
        200
    } else if render_applies(c) {
        200
    } else if serve_applies(c) {
        200
    } else {
        404
    }
}

/// The Content-Type header a finished chain leaves for its body, when
/// it writes one: HTML for listings and rendered templates, the guessed
/// type for a served file, plain text for a not-found fall-through.
pub open spec fn chain_content_type(c: RequestContext) -> Option<Seq<char>> {
    if !method_allowed(c) || wants_slash_redirect(c) {
        None
    } else if c.res matches Some(Resource::Index(_)) {
        Some("text/html; charset=utf-8"@)
    } else if render_applies(c) {
        Some("text/html; charset=utf-8"@)
    } else if serve_applies(c) {
        match c.res {
            Some(Resource::File(f)) => Some(
                served_mime(crate::resource::ctx_name_spec(f.abs_path.deep_view())),
            ),
            _ => None,
        }
    } else {
        Some("text/plain; charset=utf-8"@)
    }
}

/// The Content-Location header a finished chain leaves: the substituted
/// path, named whenever the file it serves was found by convention
/// rather than requested by its exact name.
pub open spec fn chain_content_location(c: RequestContext) -> Option<Seq<char>> {
    if method_allowed(c) && !wants_slash_redirect(c) && !(c.res matches Some(Resource::Index(_)))
        && !render_applies(c) && serve_applies(c) {
        match c.res {
            Some(Resource::File(f)) => if f.is_implicit {
                Some(url_path_text(f.abs_path.deep_view()))
            } else {
                None
            },
            _ => None,
        }
    } else {
        None
    }
}

/// The body the chain leaves for that status.
pub open spec fn chain_body_holds(c: RequestContext) -> bool {
    if method_allowed(c) && !wants_slash_redirect(c) {
        if c.res matches Some(Resource::Index(_)) {
            c.response.body is GeneratedIndex
        } else if render_applies(c) {
            c.response.body is RenderedTemplate
        } else if serve_applies(c) {
            c.response.body is FileStream
        } else {
            c.response.body is Empty
        }
    } else {
        c.response.body is Empty
    }
}

/// Runs the whole chain on one request record: resolution, the method
/// gate, the trailing-slash redirect, and the body-producing stages,
/// with onion-style short-circuiting. The response's status is set from
/// the terminal stage's outcome; the returned outcome is what the
/// early-return filter leaves for the outermost (logging/transport)
/// layer. Headers are only ever added, so the server-identification
/// header set at construction survives to the wire.
pub fn run_chain(ctx: &mut RequestContext, snap: &FsSnapshot) -> (r: Outcome)
    requires
        snap.wf(),
        old(ctx).response.body is Empty,
    ensures
        final(ctx).method == old(ctx).method,
        final(ctx).uri_path == old(ctx).uri_path,
        resolution_holds(old(ctx).uri_path@, *final(ctx), *snap),
        final(ctx).response.status_line.status_code == chain_code(*final(ctx)),
        chain_body_holds(*final(ctx)),
        r == early_return_spec(Outcome::Handled(final(ctx).response.status_line.status_code)),
        old(ctx).response.headers_v().is_prefix_of(final(ctx).response.headers_v()),
        wants_slash_redirect(*final(ctx)) && method_allowed(*final(ctx)) ==> final(ctx)
            .response.headers_v().contains(
            HeaderV { name: "Location"@, values: seq![old(ctx).uri_path@ + seq!['/']] },
        ),
        chain_content_type(*final(ctx)) matches Some(ct) ==> final(ctx)
            .response.headers_v().contains(HeaderV { name: "Content-Type"@, values: seq![ct] }),
        chain_content_location(*final(ctx)) matches Some(cl) ==> final(ctx)
            .response.headers_v().contains(
            HeaderV { name: "Content-Location"@, values: seq![cl] },
        ),
{
    resolve_resource(ctx, snap);
    let ghost resolved = *ctx;
    let o1 = allow_methods(ctx);
    let pre: Outcome = match o1 {
        Outcome::Handled(c) => Outcome::Handled(c),
        Outcome::Continue => {
            let o2 = trailing_slash(ctx);
            match o2 {
                Outcome::Handled(c) => Outcome::Handled(c),
                Outcome::Continue => {
                    let inner = auto_index(ctx);
                    let after_render = match inner {
                        Outcome::Handled(c) => Outcome::Handled(c),
                        Outcome::Continue => render_hbs(ctx),
                    };
                    match after_render {
                        Outcome::Handled(c) => Outcome::Handled(c),
                        Outcome::Continue => serve_file(ctx),
                    }
                },
            }
        },
    };
    match pre {
        Outcome::Handled(c) => {
            ctx.response.status_line.status_code = c;
        },
        Outcome::Continue => {
            ctx.response.status_line.status_code = 200;
        },
    }
    proof {
        assert(old(ctx).response.headers_v().is_prefix_of(final(ctx).response.headers_v()));
        match chain_content_type(*ctx) {
            Some(ct) => {
                let hv = HeaderV { name: "Content-Type"@, values: seq![ct] };
                assert(ctx.response.headers_v().last() == hv);
                assert(ctx.response.headers_v().contains(hv)) by {
                    assert(ctx.response.headers_v()[ctx.response.headers_v().len() - 1] == hv);
                }
            },
            None => {},
        }
        match chain_content_location(*ctx) {
            Some(cl) => {
                let hv = HeaderV { name: "Content-Location"@, values: seq![cl] };
                assert(ctx.response.headers_v()[ctx.response.headers_v().len() - 2] == hv);
                assert(ctx.response.headers_v().contains(hv));
            },
            None => {},
        }
        if wants_slash_redirect(*ctx) && method_allowed(*ctx) {
            let hv = HeaderV {
                name: "Location"@,
                values: seq![old(ctx).uri_path@ + seq!['/']],
            };
            assert(ctx.response.headers_v() == resolved.response.headers_v().push(hv));
            assert(ctx.response.headers_v()[ctx.response.headers_v().len() - 1] == hv);
            assert(ctx.response.headers_v().contains(hv));
        }
    }
    early_return(match pre {
        Outcome::Handled(c) => Outcome::Handled(c),
        Outcome::Continue => Outcome::Handled(200u16),
    })
}

/// The early-return filter, at the spec level.
pub open spec fn early_return_spec(o: Outcome) -> Outcome {
    match o {
        Outcome::Continue => Outcome::Continue,
        Outcome::Handled(c) => if 300 <= c < 600 {
            Outcome::Handled(c)
        } else {
            Outcome::Continue
        },
    }
}

/// A request whose method the configuration rejects is answered 405
/// when it names something that exists, and 404 when it does not: the
/// resource is resolved first and the method gated after, and an
/// unresolvable path never turns into a method error.
pub proof fn lemma_method_gate(c: RequestContext)
    requires
        !method_allowed(c),
    ensures
        c.res matches Some(r) && !(r is NotFound) ==> chain_code(c) == 405,
        (c.res matches Some(r) ==> r is NotFound) ==> chain_code(c) == 404,
{
}

/// The default configuration admits nothing but `GET`.
pub proof fn lemma_default_config_rejects_other_methods(c: RequestContext)
    requires
        c.config.server.view_spec() == default_config_v(),
        c.method@ != "GET"@,
    ensures
        !method_allowed(c),
{
    if method_allowed(c) {
        let ms = c.config.server.allow_methods.deep_view();
        assert(ms == seq!["GET"@]);
        let k = choose|k: int| 0 <= k < ms.len() && ms[k] == c.method@;
        assert(k == 0);
        assert(ms[0] == "GET"@);
    }
}

/// Serves one parsed request against a snapshot of the tree: builds the
/// per-request record and runs the whole chain on it. The caller writes
/// the response out, rendering or streaming what the body source names.
/// Every response carries the fixed server-identification header.
pub fn handle_request(method: &str, uri_path: &str, snap: &FsSnapshot) -> (r: RequestContext)
    requires
        snap.wf(),
    ensures
        r.method@ == method@,
        r.uri_path@ == uri_path@,
        resolution_holds(uri_path@, r, *snap),
        r.response.status_line.status_code == chain_code(r),
        chain_body_holds(r),
        r.response.headers_v().contains(
            HeaderV { name: "Server"@, values: seq!["polyserve (rust)"@] },
        ),
        wants_slash_redirect(r) && method_allowed(r) ==> r.response.headers_v().contains(
            HeaderV { name: "Location"@, values: seq![uri_path@ + seq!['/']] },
        ),
        chain_content_type(r) matches Some(ct) ==> r.response.headers_v().contains(
            HeaderV { name: "Content-Type"@, values: seq![ct] },
        ),
        chain_content_location(r) matches Some(cl) ==> r.response.headers_v().contains(
            HeaderV { name: "Content-Location"@, values: seq![cl] },
        ),
{
    let mut ctx = RequestContext::new(method, uri_path);
    let ghost fresh = ctx;
    let _o = run_chain(&mut ctx, snap);
    proof {
        let hv = HeaderV { name: "Server"@, values: seq!["polyserve (rust)"@] };
        assert(fresh.response.headers_v()[0] == hv);
        assert(ctx.response.headers_v()[0] == hv);
        assert(ctx.response.headers_v().contains(hv));
    }
    ctx
}

/// The URL form of a root-relative path: a `/` before each segment.
pub open spec fn url_path_text(p: Seq<Seq<char>>) -> Seq<char>
    decreases p.len(),
{
    if p.len() == 0 {
        Seq::empty()
    } else {
        url_path_text(p.drop_last()) + seq!['/'] + p.last()
    }
}

/// Writes a root-relative path in its URL form.
pub fn url_of_path(p: &Vec<String>) -> (r: String)
    ensures
        r@ == url_path_text(p.deep_view()),
{
    let n = p.len();
    let mut out = String::new();
    let mut i: usize = 0;
    proof {
        assert(out@ =~= url_path_text(p.deep_view().subrange(0, 0)));
    }
    while i < n
        invariant
            n == p@.len(),
            i <= n,
            out@ == url_path_text(p.deep_view().subrange(0, i as int)),
        decreases n - i,
    {
        let ghost pre = p.deep_view().subrange(0, i as int);
        let ghost post = p.deep_view().subrange(0, i + 1);
        proof {
            assert(post.drop_last() =~= pre);
            assert(post.last() == p.deep_view()[i as int]);
        }
        out.append("/");
        out.append(p[i].as_str());
        proof {
            reveal_strlit("/");
            assert("/"@ =~= seq!['/']);
            assert(out@ =~= url_path_text(post));
        }
        i = i + 1;
    }
    proof {
        assert(p.deep_view().subrange(0, n as int) =~= p.deep_view());
    }
    out
}

} // verus!
