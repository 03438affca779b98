use vstd::prelude::*;
use crate::rich_text::{RichText, Code, append_text_result, default_style, room_for};
use crate::char_width::valid_widths;
use crate::colorize::{apply_segs, json_segments, colorize_json};
use crate::colorize_sgml::{sgml_segments, colorize_sgml};
use crate::mime_types::{spec_is_sgml, spec_is_json, is_sgml, is_json};
use crate::schema::{QueryParam, PostParam, PostData};
use crate::text::{to_chars, chars_eq, ends_with_chars, ends_with};
use crate::tabs::{Tab, Tabs, TabsOutcome, tab_ok, content_rect_spec, tabs_after_event, tabs_ops, labels_widths_v};
use crate::widget::{WidgetData, WidgetId};
use crate::rect::Rect;
use crate::event::Event;
use crate::draw::{DrawOp, WindowSize, ops_view};

verus! {

/// The part of a MIME type before its first `;` (its parameters).
pub open spec fn mime_main(m: Seq<char>) -> Seq<char>
    decreases m.len(),
{
    if m.len() == 0 {
        m
    } else if m[0] == ';' {
        Seq::empty()
    } else {
        seq![m[0]] + mime_main(m.skip(1))
    }
}

/// How a request body is shown: coloured as markup, coloured as JSON, or
/// as plain text.
#[derive(Debug, Clone, Copy, PartialEq, Eq, Structural)]
pub enum BodyKind {
    Sgml,
    Json,
    Plain,
}

/// The way a body of the given MIME type is shown; a body without one is
/// taken as `application/octet-stream`.
pub open spec fn body_kind(mime: Option<Seq<char>>) -> BodyKind {
    let m = mime_main(match mime { Some(m) => m, None => "application/octet-stream"@ });
    if spec_is_sgml(m) {
        BodyKind::Sgml
    } else if spec_is_json(m) {
        BodyKind::Json
    } else {
        BodyKind::Plain
    }
}

proof fn lemma_mime_main_prefix(m: Seq<char>, k: int)
    requires
        0 <= k <= m.len(),
        forall|i: int| 0 <= i < k ==> m[i] != ';',
        k == m.len() || m[k] == ';',
    ensures
        mime_main(m) == m.take(k),
    decreases m.len(),
{
    if m.len() > 0 && m[0] != ';' {
        assert forall|i: int| 0 <= i < k - 1 implies m.skip(1)[i] != ';' by {
            assert(m.skip(1)[i] == m[i + 1]);
        }
        lemma_mime_main_prefix(m.skip(1), k - 1);
        assert(seq![m[0]] + m.skip(1).take(k - 1) =~= m.take(k));
    } else {
        assert(m.take(k) =~= Seq::<char>::empty());
    }
}

/// The part of `mime` before its first `;`.
fn mime_main_exec(mime: &str) -> (r: &str)
    ensures
        r@ == mime_main(mime@),
{
    let t = to_chars(mime);
    let mut k: usize = 0;
    while k < t.len()
        invariant
            k <= t@.len(),
            t@ == mime@,
            forall|i: int| 0 <= i < k ==> t@[i] != ';',
        ensures
            k <= t@.len(),
            t@ == mime@,
            forall|i: int| 0 <= i < k ==> t@[i] != ';',
            k == t@.len() || t@[k as int] == ';',
        decreases t.len() - k,
    {
        if t[k] == ';' {
            break;
        }
        k += 1;
    }
    proof {
        lemma_mime_main_prefix(mime@, k as int);
    }
    mime.substring_char(0, k)
}

/// The way a body of the given MIME type is shown; see [`body_kind`].
pub fn body_kind_of(mime: Option<&str>) -> (r: BodyKind)
    ensures
        r == body_kind(match mime { Some(m) => Some(m@), None => None }),
{
    let m = match mime {
        Some(m) => m,
        None => "application/octet-stream",
    };
    let main = mime_main_exec(m);
    if is_sgml(main) {
        BodyKind::Sgml
    } else if is_json(main) {
        BodyKind::Json
    } else {
        BodyKind::Plain
    }
}

/// A request body as rich text, as lines and width: coloured as its MIME
/// type says ([`body_kind`]).
pub open spec fn body_result(text: Seq<char>, ws: Seq<i32>, mime: Option<Seq<char>>) -> (Seq<Seq<Code>>, nat) {
    match body_kind(mime) {
        BodyKind::Sgml => apply_segs(Seq::empty(), 0, text, ws, sgml_segments(text)),
        BodyKind::Json => apply_segs(Seq::empty(), 0, text, ws, json_segments(text)),
        BodyKind::Plain => append_text_result(Seq::empty(), 0, default_style(), text, ws),
    }
}

/// A request body as rich text: coloured by its MIME type, as
/// [`body_kind`] says; `widths` gives the widths of its characters.
pub fn body_text(text: &str, widths: &[i32], mime: Option<&str>) -> (r: RichText)
    requires
        widths@.len() == text@.len(),
        valid_widths(widths@),
    ensures
        (r.lines_v(), r.width as nat) == body_result(text@, widths@, match mime { Some(m) => Some(m@), None => None }),
{
    let mut r = RichText::new();
    match body_kind_of(mime) {
        BodyKind::Sgml => colorize_sgml(text, widths, &mut r),
        BodyKind::Json => colorize_json(text, widths, &mut r),
        BodyKind::Plain => r.append_plain_text(text, widths),
    }
    r
}

/// How the text of a response's content is shown in a table cell: as
/// markup for HTML and `+xml` types, as JSON for `application/json` and
/// `+json` types (parameters after `;` aside), plain otherwise and where
/// the type is unknown.
pub open spec fn content_kind(mime: Option<Seq<char>>) -> BodyKind {
    match mime {
        None => BodyKind::Plain,
        Some(m) => {
            let main = mime_main(m);
            if spec_is_sgml(main) {
                BodyKind::Sgml
            } else if main == "application/json"@ || ends_with(main, "+json"@) {
                BodyKind::Json
            } else {
                BodyKind::Plain
            }
        },
    }
}

/// The kind of [`content_kind`].
pub fn content_kind_of(mime: Option<&str>) -> (r: BodyKind)
    ensures
        r == content_kind(match mime { Some(m) => Some(m@), None => None }),
{
    match mime {
        None => BodyKind::Plain,
        Some(m) => {
            let main = mime_main_exec(m);
            if is_sgml(main) {
                BodyKind::Sgml
            } else {
                let t = to_chars(main);
                let app = to_chars("application/json");
                let suffix = to_chars("+json");
                if chars_eq(t.as_slice(), app.as_slice()) || ends_with_chars(t.as_slice(), suffix.as_slice()) {
                    BodyKind::Json
                } else {
                    BodyKind::Plain
                }
            }
        },
    }
}

/// Appends the text of a response's content, where there is one, coloured
/// as [`content_kind`] says; `widths` gives the widths of its characters.
pub fn append_content_text(rich_text: &mut RichText, text: Option<&str>, widths: &[i32], mime: Option<&str>)
    requires
        text matches Some(t) ==> {
            &&& widths@.len() == t@.len()
            &&& valid_widths(widths@)
            &&& room_for(old(rich_text).lines_v(), t@.len())
        },
    ensures
        (final(rich_text).lines_v(), final(rich_text).width as nat) == match text {
            None => (old(rich_text).lines_v(), old(rich_text).width as nat),
            Some(t) => {
                let (lines, width) = (old(rich_text).lines_v(), old(rich_text).width as nat);
                match content_kind(match mime { Some(m) => Some(m@), None => None }) {
                    BodyKind::Sgml => apply_segs(lines, width, t@, widths@, sgml_segments(t@)),
                    BodyKind::Json => apply_segs(lines, width, t@, widths@, json_segments(t@)),
                    BodyKind::Plain => append_text_result(lines, width, default_style(), t@, widths@),
                }
            },
        },
{
    if let Some(t) = text {
        match content_kind_of(mime) {
            BodyKind::Sgml => colorize_sgml(t, widths, rich_text),
            BodyKind::Json => colorize_json(t, widths, rich_text),
            BodyKind::Plain => rich_text.append_plain_text(t, widths),
        }
    }
}

/// The text of a response's content as a table cell: coloured as
/// [`content_kind`] says; `widths` gives the widths of its characters.
pub fn content_text(text: &str, widths: &[i32], mime: Option<&str>) -> (r: RichText)
    requires
        widths@.len() == text@.len(),
        valid_widths(widths@),
    ensures
        (r.lines_v(), r.width as nat) == match content_kind(match mime { Some(m) => Some(m@), None => None }) {
            BodyKind::Sgml => apply_segs(Seq::empty(), 0, text@, widths@, sgml_segments(text@)),
            BodyKind::Json => apply_segs(Seq::empty(), 0, text@, widths@, json_segments(text@)),
            BodyKind::Plain => append_text_result(Seq::empty(), 0, default_style(), text@, widths@),
        },
{
    let mut r = RichText::new();
    append_content_text(&mut r, Some(text), widths, mime);
    r
}

/// The key/value rows of headers or query parameters: name and value.
pub fn param_rows(params: &[QueryParam]) -> (r: Vec<(String, String)>)
    ensures
        r@.len() == params@.len(),
        forall|i: int| 0 <= i < r@.len() ==> (#[trigger] r@[i]).0@ == params@[i].name@ && r@[i].1@ == params@[i].value@,
{
    let mut r: Vec<(String, String)> = Vec::new();
    let mut i: usize = 0;
    while i < params.len()
        invariant
            i <= params@.len(),
            r@.len() == i,
            forall|j: int| 0 <= j < i ==> (#[trigger] r@[j]).0@ == params@[j].name@ && r@[j].1@ == params@[j].value@,
        decreases params.len() - i,
    {
        r.push((params[i].name.clone(), params[i].value.clone()));
        i += 1;
    }
    r
}

/// The key/value rows of posted form parameters: name and value, empty
/// where the parameter has no value.
pub fn post_param_rows(params: &[PostParam]) -> (r: Vec<(String, String)>)
    ensures
        r@.len() == params@.len(),
        forall|i: int| 0 <= i < r@.len() ==> (#[trigger] r@[i]).0@ == params@[i].name@
            && r@[i].1@ == match params@[i].value { Some(v) => v@, None => Seq::<char>::empty() },
{
    let mut r: Vec<(String, String)> = Vec::new();
    let mut i: usize = 0;
    while i < params.len()
        invariant
            i <= params@.len(),
            r@.len() == i,
            forall|j: int| 0 <= j < i ==> (#[trigger] r@[j]).0@ == params@[j].name@
                && r@[j].1@ == match params@[j].value { Some(v) => v@, None => Seq::<char>::empty() },
        decreases params.len() - i,
    {
        let v = match &params[i].value {
            Some(v) => v.clone(),
            None => String::new(),
        };
        r.push((params[i].name.clone(), v));
        i += 1;
    }
    r
}


/// What the request view of an entry shows: the request line, the
/// optional facts about the exchange (each already as text), the headers,
/// query parameters and cookies as name and value, the posted data with
/// the widths of its text's characters, and the comment.
pub struct RequestSummary {
    pub method: String,
    pub http_version: String,
    pub url: String,
    pub server_ip_address: Option<String>,
    pub connection: Option<String>,
    pub pageref: Option<String>,
    pub priority: Option<String>,
    pub security_state: Option<String>,
    pub headers: Vec<(String, String)>,
    pub query_string: Vec<QueryParam>,
    pub cookies: Vec<(String, String)>,
    pub post_data: Option<PostData>,
    pub post_text_widths: Vec<i32>,
    pub comment: Option<String>,
}

/// What a tab of the request view holds: rows of a key/value list, the
/// body as rich text, or the comment as plain text.
pub enum RequestTabContent {
    Rows(Vec<(String, String)>),
    Body(RichText),
    Comment(String),
}

/// A tab of the request view: its title, its mnemonic and what it holds.
pub struct RequestTab {
    pub title: String,
    pub mnemonic: char,
    pub content: RequestTabContent,
}

/// The tabs a request view can have.
pub ghost enum RequestTabKind {
    Info,
    Headers,
    Query,
    Cookies,
    PostData,
    Body,
    Comment,
}

/// The title of a tab of the request view.
pub open spec fn request_tab_title(k: RequestTabKind) -> Seq<char> {
    match k {
        RequestTabKind::Info => "Info"@,
        RequestTabKind::Headers => "Request Headers"@,
        RequestTabKind::Query => "Query"@,
        RequestTabKind::Cookies => "Cookies"@,
        RequestTabKind::PostData => "Post Data"@,
        RequestTabKind::Body => "Request Body"@,
        RequestTabKind::Comment => "Commet"@,
    }
}

/// The mnemonic of a tab of the request view.
pub open spec fn request_tab_mnemonic(k: RequestTabKind) -> char {
    match k {
        RequestTabKind::Info => 'I',
        RequestTabKind::Headers => 'H',
        RequestTabKind::Query => 'Q',
        RequestTabKind::Cookies => 'K',
        RequestTabKind::PostData => 'P',
        RequestTabKind::Body => 'B',
        RequestTabKind::Comment => 'C',
    }
}

pub open spec fn opt_tab(c: bool, k: RequestTabKind) -> Seq<RequestTabKind> {
    if c { seq![k] } else { Seq::empty() }
}

/// The tabs of the request view, in order: the information and the
/// headers always; the query parameters, the cookies and the posted
/// parameters where there are any; the posted text and the comment where
/// there is one.
pub open spec fn request_tab_kinds(s: RequestSummary) -> Seq<RequestTabKind> {
    seq![RequestTabKind::Info, RequestTabKind::Headers]
        + opt_tab(s.query_string@.len() > 0, RequestTabKind::Query)
        + opt_tab(s.cookies@.len() > 0, RequestTabKind::Cookies)
        + match s.post_data {
            Some(p) => opt_tab(p.params@.len() > 0, RequestTabKind::PostData) + opt_tab(p.text is Some, RequestTabKind::Body),
            None => Seq::empty(),
        }
        + opt_tab(s.comment is Some, RequestTabKind::Comment)
}

/// Rows as pairs of character sequences.
pub open spec fn rows_v(rows: Seq<(String, String)>) -> Seq<(Seq<char>, Seq<char>)> {
    rows.map_values(|r: (String, String)| (r.0@, r.1@))
}

pub open spec fn opt_row(key: Seq<char>, v: Option<String>) -> Seq<(Seq<char>, Seq<char>)> {
    match v {
        Some(v) => seq![(key, v@)],
        None => Seq::empty(),
    }
}

/// The rows of the information tab: method, HTTP version and URL, then
/// server address, connection, page, priority and security state where
/// known.
pub open spec fn info_rows(s: RequestSummary) -> Seq<(Seq<char>, Seq<char>)> {
    seq![("Method"@, s.method@), ("HTTP Version"@, s.http_version@), ("URL"@, s.url@)]
        + opt_row("Server IP"@, s.server_ip_address)
        + opt_row("Connection"@, s.connection)
        + opt_row("Page Ref"@, s.pageref)
        + opt_row("Priority"@, s.priority)
        + opt_row("Security State"@, s.security_state)
}

/// Query parameters as name and value.
pub open spec fn query_rows(ps: Seq<QueryParam>) -> Seq<(Seq<char>, Seq<char>)> {
    ps.map_values(|p: QueryParam| (p.name@, p.value@))
}

/// Posted parameters as name and value, empty where there is none.
pub open spec fn post_rows(ps: Seq<PostParam>) -> Seq<(Seq<char>, Seq<char>)> {
    ps.map_values(|p: PostParam| (p.name@, match p.value { Some(v) => v@, None => Seq::<char>::empty() }))
}

/// What tab `k` of the request view of `s` holds.
pub open spec fn request_tab_content_ok(k: RequestTabKind, c: RequestTabContent, s: RequestSummary) -> bool {
    match k {
        RequestTabKind::Info => c matches RequestTabContent::Rows(rows) && rows_v(rows@) == info_rows(s),
        RequestTabKind::Headers => c matches RequestTabContent::Rows(rows) && rows_v(rows@) == rows_v(s.headers@),
        RequestTabKind::Query => c matches RequestTabContent::Rows(rows) && rows_v(rows@) == query_rows(s.query_string@),
        RequestTabKind::Cookies => c matches RequestTabContent::Rows(rows) && rows_v(rows@) == rows_v(s.cookies@),
        RequestTabKind::PostData => c matches RequestTabContent::Rows(rows) && s.post_data is Some
            && rows_v(rows@) == post_rows(s.post_data->0.params@),
        RequestTabKind::Body => c matches RequestTabContent::Body(t) && s.post_data is Some
            && s.post_data->0.text is Some
            && (t.lines_v(), t.width as nat) == body_result(s.post_data->0.text->0@, s.post_text_widths@,
                match s.post_data->0.mime_type { Some(m) => Some(m@), None => None }),
        RequestTabKind::Comment => c matches RequestTabContent::Comment(t) && s.comment is Some && t@ == s.comment->0@,
    }
}

/// The tabs built so far are those of `kinds`.
pub open spec fn tabs_match(r: Seq<RequestTab>, kinds: Seq<RequestTabKind>, s: RequestSummary) -> bool {
    &&& r.len() == kinds.len()
    &&& forall|i: int| 0 <= i < r.len() ==> #[trigger] r[i].title@ == request_tab_title(kinds[i])
        && r[i].mnemonic == request_tab_mnemonic(kinds[i])
        && request_tab_content_ok(kinds[i], r[i].content, s)
}

fn copy_rows(rows: &[(String, String)]) -> (r: Vec<(String, String)>)
    ensures
        rows_v(r@) == rows_v(rows@),
{
    let mut r: Vec<(String, String)> = Vec::new();
    let mut i: usize = 0;
    while i < rows.len()
        invariant
            i <= rows@.len(),
            rows_v(r@) == rows_v(rows@).take(i as int),
        decreases rows.len() - i,
    {
        let ghost r0 = r@;
        r.push((rows[i].0.clone(), rows[i].1.clone()));
        assert(rows_v(r@) =~= rows_v(r0).push((rows@[i as int].0@, rows@[i as int].1@)));
        assert(rows_v(rows@).take(i + 1) =~= rows_v(rows@).take(i as int).push((rows@[i as int].0@, rows@[i as int].1@)));
        i += 1;
    }
    assert(rows_v(rows@).take(i as int) =~= rows_v(rows@));
    r
}

fn push_row(rows: &mut Vec<(String, String)>, key: &str, value: &String)
    ensures
        rows_v(final(rows)@) == rows_v(old(rows)@).push((key@, value@)),
{
    let ghost r0 = rows@;
    rows.push((key.to_owned(), value.clone()));
    assert(rows_v(rows@) =~= rows_v(r0).push((key@, value@)));
}

fn push_opt_row(rows: &mut Vec<(String, String)>, key: &str, value: &Option<String>)
    ensures
        rows_v(final(rows)@) == rows_v(old(rows)@) + opt_row(key@, *value),
{
    match value {
        Some(v) => push_row(rows, key, v),
        None => {
            assert(rows_v(rows@) =~= rows_v(old(rows)@) + opt_row(key@, *value));
        },
    }
}

/// The rows of the information tab; see [`info_rows`].
pub fn request_info_rows(s: &RequestSummary) -> (r: Vec<(String, String)>)
    ensures
        rows_v(r@) == info_rows(*s),
{
    let mut rows: Vec<(String, String)> = Vec::new();
    push_row(&mut rows, "Method", &s.method);
    push_row(&mut rows, "HTTP Version", &s.http_version);
    push_row(&mut rows, "URL", &s.url);
    push_opt_row(&mut rows, "Server IP", &s.server_ip_address);
    push_opt_row(&mut rows, "Connection", &s.connection);
    push_opt_row(&mut rows, "Page Ref", &s.pageref);
    push_opt_row(&mut rows, "Priority", &s.priority);
    push_opt_row(&mut rows, "Security State", &s.security_state);
    assert(rows_v(rows@) =~= info_rows(*s));
    rows
}

fn push_tab(tabs: &mut Vec<RequestTab>, title: &str, mnemonic: char, content: RequestTabContent,
    Ghost(kinds): Ghost<Seq<RequestTabKind>>, Ghost(k): Ghost<RequestTabKind>, Ghost(s): Ghost<RequestSummary>)
    requires
        tabs_match(old(tabs)@, kinds, s),
        title@ == request_tab_title(k),
        mnemonic == request_tab_mnemonic(k),
        request_tab_content_ok(k, content, s),
    ensures
        tabs_match(final(tabs)@, kinds.push(k), s),
{
    tabs.push(RequestTab { title: title.to_owned(), mnemonic, content });
    assert forall|i: int| 0 <= i < tabs@.len() implies #[trigger] tabs@[i].title@ == request_tab_title(kinds.push(k)[i])
        && tabs@[i].mnemonic == request_tab_mnemonic(kinds.push(k)[i])
        && request_tab_content_ok(kinds.push(k)[i], tabs@[i].content, s) by {
        if i < old(tabs)@.len() {
            assert(tabs@[i] == old(tabs)@[i]);
        }
    }
}

/// The widths given are those of the posted text, where there is one.
pub open spec fn post_widths_ok(s: RequestSummary) -> bool {
    match s.post_data {
        Some(p) => match p.text {
            Some(t) => s.post_text_widths@.len() == t@.len() && valid_widths(s.post_text_widths@),
            None => true,
        },
        None => true,
    }
}

/// The tabs of the request view of an entry; see [`request_tab_kinds`]
/// for which there are and [`request_tab_content_ok`] for what each holds.
pub fn request_tabs(s: &RequestSummary) -> (r: Vec<RequestTab>)
    requires
        post_widths_ok(*s),
    ensures
        tabs_match(r@, request_tab_kinds(*s), *s),
{
    let mut tabs: Vec<RequestTab> = Vec::new();
    let ghost mut kinds: Seq<RequestTabKind> = Seq::empty();
    let info = request_info_rows(s);
    push_tab(&mut tabs, "Info", 'I', RequestTabContent::Rows(info), Ghost(kinds), Ghost(RequestTabKind::Info), Ghost(*s));
    proof { kinds = kinds.push(RequestTabKind::Info); }
    let headers = copy_rows(s.headers.as_slice());
    push_tab(&mut tabs, "Request Headers", 'H', RequestTabContent::Rows(headers), Ghost(kinds),
        Ghost(RequestTabKind::Headers), Ghost(*s));
    proof { kinds = kinds.push(RequestTabKind::Headers); }
    if s.query_string.len() > 0 {
        let rows = param_rows(s.query_string.as_slice());
        assert(rows_v(rows@) =~= query_rows(s.query_string@));
        push_tab(&mut tabs, "Query", 'Q', RequestTabContent::Rows(rows), Ghost(kinds), Ghost(RequestTabKind::Query),
            Ghost(*s));
        proof { kinds = kinds.push(RequestTabKind::Query); }
    }
    assert(kinds =~= seq![RequestTabKind::Info, RequestTabKind::Headers]
        + opt_tab(s.query_string@.len() > 0, RequestTabKind::Query));
    if s.cookies.len() > 0 {
        let rows = copy_rows(s.cookies.as_slice());
        push_tab(&mut tabs, "Cookies", 'K', RequestTabContent::Rows(rows), Ghost(kinds), Ghost(RequestTabKind::Cookies),
            Ghost(*s));
        proof { kinds = kinds.push(RequestTabKind::Cookies); }
    }
    let ghost k2 = kinds;
    assert(k2 =~= seq![RequestTabKind::Info, RequestTabKind::Headers]
        + opt_tab(s.query_string@.len() > 0, RequestTabKind::Query)
        + opt_tab(s.cookies@.len() > 0, RequestTabKind::Cookies));
    match &s.post_data {
        Some(p) => {
            if p.params.len() > 0 {
                let rows = post_param_rows(p.params.as_slice());
                assert(rows_v(rows@) =~= post_rows(p.params@));
                push_tab(&mut tabs, "Post Data", 'P', RequestTabContent::Rows(rows), Ghost(kinds),
                    Ghost(RequestTabKind::PostData), Ghost(*s));
                proof { kinds = kinds.push(RequestTabKind::PostData); }
            }
            match &p.text {
                Some(text) => {
                    let mime: Option<&str> = match &p.mime_type {
                        Some(m) => Some(m.as_str()),
                        None => None,
                    };
                    let body = body_text(text.as_str(), s.post_text_widths.as_slice(), mime);
                    push_tab(&mut tabs, "Request Body", 'B', RequestTabContent::Body(body), Ghost(kinds),
                        Ghost(RequestTabKind::Body), Ghost(*s));
                    proof { kinds = kinds.push(RequestTabKind::Body); }
                },
                None => {},
            }
            assert(kinds =~= k2 + opt_tab(p.params@.len() > 0, RequestTabKind::PostData)
                + opt_tab(p.text is Some, RequestTabKind::Body));
        },
        None => {
            assert(kinds =~= k2 + Seq::<RequestTabKind>::empty());
        },
    }
    let ghost k3 = kinds;
    match &s.comment {
        Some(c) => {
            push_tab(&mut tabs, "Commet", 'C', RequestTabContent::Comment(c.clone()), Ghost(kinds),
                Ghost(RequestTabKind::Comment), Ghost(*s));
            proof { kinds = kinds.push(RequestTabKind::Comment); }
        },
        None => {},
    }
    assert(kinds =~= k3 + opt_tab(s.comment is Some, RequestTabKind::Comment));
    assert(kinds =~= request_tab_kinds(*s));
    tabs
}


/// The view of one request: a row of tabs built from [`request_tabs`].
#[derive(Debug)]
pub struct RequestView {
    pub widget_data: WidgetData,
    pub tabs: Tabs,
}

impl RequestView {
    /// A view without tabs.
    pub fn new(widget_id: WidgetId, tabs_id: WidgetId) -> (r: Self)
        ensures
            r.widget_data == WidgetData::new_spec(widget_id),
            r.tabs.widget_data == WidgetData::new_spec(tabs_id),
            r.tabs.tabs@.len() == 0,
            r.tabs.formatted_tabs@.len() == 0,
            r.tabs.selected_tab_index == 0,
    {
        RequestView { widget_data: WidgetData::new(widget_id), tabs: Tabs::new(tabs_id) }
    }

    pub fn widget_id(&self) -> (r: WidgetId)
        ensures
            r == self.widget_data.widget_id,
    {
        self.widget_data.widget_id
    }

    /// Shows the tabs of an entry (one per [`RequestTab`], holding the
    /// widget made for it), the first selected; returns the rectangle
    /// their widgets take.
    pub fn set_entry(&mut self, tabs: Vec<Tab>) -> (r: Rect)
        requires
            forall|i: int| 0 <= i < tabs@.len() ==> #[trigger] tab_ok(tabs@[i]),
            old(self).tabs.widget_data.rect.row < i32::MAX,
        ensures
            r == content_rect_spec(old(self).tabs.widget_data.rect),
            final(self).tabs.tabs@ == tabs@,
            final(self).tabs.formatted(),
            final(self).tabs.selected_tab_index == 0,
            final(self).tabs.widget_data == (WidgetData { dirty: true, ..old(self).tabs.widget_data }),
            final(self).widget_data == (WidgetData { dirty: true, ..old(self).widget_data }),
    {
        let r = self.tabs.set_tabs(tabs);
        self.widget_data.dirty = true;
        r
    }

    /// Moves the view to `rect`; where it moved, its tabs move too and the
    /// selected tab's widget is returned with its new rectangle.
    pub fn set_draw_rect(&mut self, rect: &Rect) -> (r: Option<(WidgetId, Rect)>)
        requires
            rect.row < i32::MAX,
        ensures
            old(self).widget_data.rect == *rect ==> r is None && *final(self) == *old(self),
            old(self).widget_data.rect != *rect ==> final(self).widget_data == (WidgetData { rect: *rect, dirty: true,
                ..old(self).widget_data })
                && (old(self).tabs.widget_data.rect == *rect ==> r is None && final(self).tabs == old(self).tabs)
                && (old(self).tabs.widget_data.rect != *rect ==> final(self).tabs.widget_data.rect == *rect
                    && final(self).tabs.widget_data.dirty
                    && r == (if old(self).tabs.selected_tab_index < old(self).tabs.tabs@.len() {
                        Some((old(self).tabs.tabs@[old(self).tabs.selected_tab_index as int].content,
                            content_rect_spec(*rect)))
                    } else {
                        None::<(WidgetId, Rect)>
                    })),
            final(self).tabs.tabs == old(self).tabs.tabs,
            final(self).tabs.selected_tab_index == old(self).tabs.selected_tab_index,
    {
        if self.widget_data.rect == *rect {
            return None;
        }
        self.widget_data.rect = *rect;
        self.widget_data.dirty = true;
        self.tabs.set_draw_rect(rect)
    }

    /// An event goes to the tabs; see [`tabs_after_event`].
    pub fn handle_event(&mut self, event: &Event) -> (r: TabsOutcome)
        requires
            old(self).tabs.widget_data.rect.row < i32::MAX,
        ensures
            (final(self).tabs, r) == tabs_after_event(old(self).tabs, *event),
            final(self).widget_data == old(self).widget_data,
    {
        self.tabs.handle_event(event)
    }

    /// Draws the tabs; see [`Tabs::draw`].
    pub fn draw(&mut self, window: WindowSize, widths: &[Vec<Vec<Vec<i32>>>], parent_row: i32, parent_column: i32)
        -> (r: Vec<DrawOp>)
        requires
            old(self).tabs.tabs_drawable(widths@, parent_row as int, parent_column as int),
        ensures
            old(self).tabs.widget_data.dirty ==> ops_view(r@) == tabs_ops(old(self).tabs.formatted_tabs@,
                labels_widths_v(widths@), old(self).tabs.selected_tab_index as int, window,
                old(self).tabs.widget_data.rect.row + parent_row, old(self).tabs.widget_data.rect.column + parent_column, 0),
            !old(self).tabs.widget_data.dirty ==> r@.len() == 0,
            final(self).tabs == (Tabs { widget_data: WidgetData { dirty: false, ..old(self).tabs.widget_data },
                ..old(self).tabs }),
            final(self).widget_data == old(self).widget_data,
    {
        self.tabs.draw(window, widths, parent_row, parent_column)
    }
}

} // verus!
