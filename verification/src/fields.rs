use vstd::prelude::*;
use crate::table::{Align, ColumnDef};
use crate::text::{eq_ignore_ascii_case, str_eq_ignore_ascii_case, to_chars, byte_offset};
use crate::color::Color;
use crate::char_width::valid_widths;
use crate::rich_text::{append_text_result, default_style};
use crate::parse_error::{byte_offsets, lemma_offset_bound};
use vstd::string::StringExecFns;

verus! {

/// Where a field name could not be read: the text and the byte offset of
/// the part that was not understood.
#[derive(Debug, Clone, Copy)]
pub struct ParserError<'a> {
    input: &'a str,
    index: usize,
}

impl<'a> ParserError<'a> {
    pub closed spec fn input_v(&self) -> Seq<char> {
        self.input@
    }

    pub closed spec fn index_v(&self) -> nat {
        self.index as nat
    }

    pub fn new(input: &'a str, index: usize) -> (r: Self)
        ensures
            r.input_v() == input@,
            r.index_v() == index,
    {
        ParserError { input, index }
    }

    pub fn input(&self) -> (r: &str)
        ensures
            r@ == self.input_v(),
    {
        self.input
    }

    pub fn index(&self) -> (r: usize)
        ensures
            r == self.index_v(),
    {
        self.index
    }
}

/// A field of the archive that can be shown as a table column: its
/// title, how its values line up, its name and how the name is read.
pub trait Field: Sized {
    /// The column title.
    spec fn header_spec(&self) -> Seq<char>;

    /// How the column's values line up.
    spec fn align_spec(&self) -> Align;

    /// The name the field is written as.
    spec fn name_spec(&self) -> Seq<char>;

    /// The field a name stands for, or the byte offset where the name
    /// cannot be read.
    spec fn parse_spec(s: Seq<char>) -> Result<Self, nat>;

    fn header(&self) -> (r: &'static str)
        ensures
            r@ == self.header_spec();

    fn align(&self) -> (r: Align)
        ensures
            r == self.align_spec();

    fn name(&self) -> (r: String)
        ensures
            r@ == self.name_spec();

    fn parse<'a>(field: &'a str) -> (r: Result<Self, ParserError<'a>>)
        requires
            field@.len() <= usize::MAX / 8,
        ensures
            match r {
                Ok(f) => Self::parse_spec(field@) == Ok::<Self, nat>(f),
                Err(e) => Self::parse_spec(field@) == Err::<Self, nat>(e.index_v()) && e.input_v() == field@
                    && e.index_v() <= 4 * field@.len(),
            };

    /// The column definition of the field: its title as text, whose
    /// characters have the widths `widths`, and its alignment.
    fn to_column_def(&self, widths: &[i32]) -> (r: ColumnDef)
        requires
            widths@.len() == self.header_spec().len(),
            valid_widths(widths@),
        ensures
            r.align == self.align_spec(),
            (r.header.lines_v(), r.header.width as nat) == append_text_result(Seq::empty(), 0, default_style(), self.header_spec(), widths@),
    {
        let header = self.header();
        ColumnDef { header: crate::rich_text::RichText::from_plain_text(header, widths), align: self.align() }
    }
}

/// Position of the first `.` of `s` from `i` on, or -1.
pub open spec fn first_dot(s: Seq<char>, i: int) -> int
    decreases s.len() - i,
{
    if i < 0 || i >= s.len() {
        -1
    } else if s[i] == '.' {
        i
    } else {
        first_dot(s, i + 1)
    }
}

proof fn lemma_first_dot_bounds(s: Seq<char>, i: int)
    requires
        0 <= i,
    ensures
        first_dot(s, i) == -1 || (i <= first_dot(s, i) < s.len() && s[first_dot(s, i)] == '.'),
    decreases s.len() - i,
{
    if i < s.len() && s[i] != '.' {
        lemma_first_dot_bounds(s, i + 1);
    }
}

/// The first `.` of `t`, where there is one.
fn find_dot(t: &[char]) -> (r: Option<usize>)
    ensures
        match r {
            Some(d) => first_dot(t@, 0) == d && d < t@.len(),
            None => first_dot(t@, 0) == -1,
        },
{
    proof {
        lemma_first_dot_bounds(t@, 0);
    }
    let mut i: usize = 0;
    while i < t.len()
        invariant
            i <= t@.len(),
            first_dot(t@, 0) == first_dot(t@, i as int),
        decreases t.len() - i,
    {
        if t[i] == '.' {
            return Some(i);
        }
        i += 1;
    }
    None
}

/// `prefix` followed by `name`.
fn prefixed(prefix: &str, name: String) -> (r: String)
    ensures
        r@ == prefix@ + name@,
{
    let mut s = prefix.to_owned();
    s.append(name.as_str());
    s
}

/// Colour of an HTTP method: one per common method, grey for others.
pub open spec fn method_color(m: Seq<char>) -> Color {
    if eq_ignore_ascii_case(m, "GET"@) {
        crate::styles::color_of(0x00FF00)
    } else if eq_ignore_ascii_case(m, "POST"@) {
        crate::styles::color_of(0xFFAA00)
    } else if eq_ignore_ascii_case(m, "PUT"@) {
        crate::styles::color_of(0x00FFFF)
    } else if eq_ignore_ascii_case(m, "PATCH"@) {
        crate::styles::color_of(0x0088FF)
    } else if eq_ignore_ascii_case(m, "DELETE"@) {
        crate::styles::color_of(0xFF2200)
    } else if eq_ignore_ascii_case(m, "HEAD"@) {
        crate::styles::color_of(0xEE00EE)
    } else {
        crate::styles::color_of(0xAAAAAA)
    }
}

/// The colour an HTTP method is shown in; see [`method_color`].
pub fn get_method_color(method: &str) -> (c: Color)
    ensures
        c == method_color(method@),
{
    if str_eq_ignore_ascii_case(method, "GET") {
        Color::from_u32(0x00FF00)
    } else if str_eq_ignore_ascii_case(method, "POST") {
        Color::from_u32(0xFFAA00)
    } else if str_eq_ignore_ascii_case(method, "PUT") {
        Color::from_u32(0x00FFFF)
    } else if str_eq_ignore_ascii_case(method, "PATCH") {
        Color::from_u32(0x0088FF)
    } else if str_eq_ignore_ascii_case(method, "DELETE") {
        Color::from_u32(0xFF2200)
    } else if str_eq_ignore_ascii_case(method, "HEAD") {
        Color::from_u32(0xEE00EE)
    } else {
        Color::from_u32(0xAAAAAA)
    }
}

/// Colour of an HTTP status: one per class, magenta outside 100..600.
pub open spec fn status_color(status: u32) -> Color {
    if status < 100 {
        crate::styles::color_of(0xEE00EE)
    } else if status < 200 {
        crate::styles::color_of(0xAAAAAA)
    } else if status < 300 {
        crate::styles::color_of(0x00FF00)
    } else if status < 400 {
        crate::styles::color_of(0x0088FF)
    } else if status < 500 {
        crate::styles::color_of(0xFFAA00)
    } else if status < 600 {
        crate::styles::color_of(0xFF2200)
    } else {
        crate::styles::color_of(0xEE00EE)
    }
}

/// The colour an HTTP status is shown in; see [`status_color`].
pub fn get_staus_color(status: u32) -> (c: Color)
    ensures
        c == status_color(status),
{
    if status < 100 {
        Color::from_u32(0xEE00EE)
    } else if status < 200 {
        Color::from_u32(0xAAAAAA)
    } else if status < 300 {
        Color::from_u32(0x00FF00)
    } else if status < 400 {
        Color::from_u32(0x0088FF)
    } else if status < 500 {
        Color::from_u32(0xFFAA00)
    } else if status < 600 {
        Color::from_u32(0xFF2200)
    } else {
        Color::from_u32(0xEE00EE)
    }
}

/// Direction of a sort.
#[derive(Debug, Clone, Copy, PartialEq, Eq, Structural)]
pub enum Direction {
    Ascending,
    Descending,
}

/// A sort order: a field and a direction.
#[derive(Debug, Clone, Copy)]
pub struct Order<F: Field> {
    pub field: F,
    pub direction: Direction,
}

/// The order a text stands for: a leading `-` sorts descending; or the
/// byte offset where it cannot be read.
pub open spec fn order_parse_spec<F: Field>(s: Seq<char>) -> Result<(F, Direction), nat> {
    let (offset, direction) = if s.len() > 0 && s[0] == '-' { (1int, Direction::Descending) } else { (0int, Direction::Ascending) };
    match F::parse_spec(s.skip(offset)) {
        Ok(f) => Ok((f, direction)),
        Err(i) => Err((offset + i) as nat),
    }
}

impl<F: Field> Order<F> {
    /// The order `order` stands for; see [`order_parse_spec`].
    pub fn parse<'a>(order: &'a str) -> (r: Result<Self, ParserError<'a>>)
        requires
            order@.len() <= usize::MAX / 8,
        ensures
            match r {
                Ok(o) => order_parse_spec::<F>(order@) == Ok::<(F, Direction), nat>((o.field, o.direction)),
                Err(e) => order_parse_spec::<F>(order@) == Err::<(F, Direction), nat>(e.index_v()) && e.input_v() == order@,
            },
    {
        let t = to_chars(order);
        let n = t.len();
        let (offset, direction): (usize, Direction) = if n > 0 && t[0] == '-' { (1, Direction::Descending) } else { (0, Direction::Ascending) };
        let rest = order.substring_char(offset, n);
        proof {
            assert(rest@ == order@.skip(offset as int));
        }
        match F::parse(rest) {
            Ok(field) => Ok(Order { field, direction }),
            Err(err) => Err(ParserError::new(order, offset + err.index())),
        }
    }

    /// The order as text: the field's name, after a `-` where descending.
    pub fn name(&self) -> (r: String)
        ensures
            r@ == (if self.direction == Direction::Descending { seq!['-'] } else { Seq::<char>::empty() }) + self.field.name_spec(),
    {
        let n = self.field.name();
        if self.direction == Direction::Descending {
            let r = prefixed("-", n);
            proof {
                reveal_strlit("-");
            }
            r
        } else {
            proof {
                assert(Seq::<char>::empty() + n@ =~= n@);
            }
            n
        }
    }
}

/// A field of an entry's initiator.
#[derive(Debug, Clone, Copy, PartialEq, Eq, Structural)]
pub enum InitiatorField {
    Type,
    Url,
    LineNumber,
}

impl Field for InitiatorField {
    open spec fn header_spec(&self) -> Seq<char> {
        match self {
            InitiatorField::Type => "Initiator Type"@,
            InitiatorField::Url => "Initiator URL"@,
            InitiatorField::LineNumber => "Initiator Line"@,
        }
    }

    open spec fn align_spec(&self) -> Align {
        match self {
            InitiatorField::Type => Align::Left,
            InitiatorField::Url => Align::Left,
            InitiatorField::LineNumber => Align::Right,
        }
    }

    open spec fn name_spec(&self) -> Seq<char> {
        match self {
            InitiatorField::Type => "type"@,
            InitiatorField::Url => "url"@,
            InitiatorField::LineNumber => "lineNumber"@,
        }
    }

    open spec fn parse_spec(s: Seq<char>) -> Result<Self, nat> {
        if eq_ignore_ascii_case(s, "type"@) {
            Ok(InitiatorField::Type)
        } else if eq_ignore_ascii_case(s, "url"@) {
            Ok(InitiatorField::Url)
        } else if eq_ignore_ascii_case(s, "lineNumber"@) {
            Ok(InitiatorField::LineNumber)
        } else {
            Err(0)
        }
    }

    fn header(&self) -> (r: &'static str) {
        match self {
            InitiatorField::Type => "Initiator Type",
            InitiatorField::Url => "Initiator URL",
            InitiatorField::LineNumber => "Initiator Line",
        }
    }

    fn align(&self) -> (r: Align) {
        match self {
            InitiatorField::Type => Align::Left,
            InitiatorField::Url => Align::Left,
            InitiatorField::LineNumber => Align::Right,
        }
    }

    fn name(&self) -> (r: String) {
        match self {
            InitiatorField::Type => "type".to_owned(),
            InitiatorField::Url => "url".to_owned(),
            InitiatorField::LineNumber => "lineNumber".to_owned(),
        }
    }

    fn parse<'a>(field: &'a str) -> (r: Result<Self, ParserError<'a>>) {
        if str_eq_ignore_ascii_case(field, "type") {
            Ok(InitiatorField::Type)
        } else if str_eq_ignore_ascii_case(field, "url") {
            Ok(InitiatorField::Url)
        } else if str_eq_ignore_ascii_case(field, "lineNumber") {
            Ok(InitiatorField::LineNumber)
        } else {
            Err(ParserError::new(field, 0))
        }
    }
}

/// A field of a request.
#[derive(Debug, Clone, Copy, PartialEq, Eq, Structural)]
pub enum RequestField {
    Method,
    Url,
    Scheme,
    Host,
    Port,
    Domain,
    Path,
    Query,
    Fragment,
    HttpVersion,
    HeadersSize,
    BodySize,
    Comment,
}

impl Field for RequestField {
    open spec fn header_spec(&self) -> Seq<char> {
        match self {
            RequestField::Method => "Method"@,
            RequestField::Url => "URL"@,
            RequestField::Scheme => "Scheme"@,
            RequestField::Host => "Host"@,
            RequestField::Port => "Port"@,
            RequestField::Domain => "Domain"@,
            RequestField::Path => "Path"@,
            RequestField::Query => "Query"@,
            RequestField::Fragment => "Fragment"@,
            RequestField::HttpVersion => "HTTP Version"@,
            RequestField::HeadersSize => "Request Headers Size"@,
            RequestField::BodySize => "Request Body Size"@,
            RequestField::Comment => "Request Comment"@,
        }
    }

    open spec fn align_spec(&self) -> Align {
        match self {
            RequestField::Method => Align::Left,
            RequestField::Url => Align::Left,
            RequestField::Scheme => Align::Left,
            RequestField::Host => Align::Left,
            RequestField::Port => Align::Right,
            RequestField::Domain => Align::Left,
            RequestField::Path => Align::Left,
            RequestField::Query => Align::Left,
            RequestField::Fragment => Align::Left,
            RequestField::HttpVersion => Align::Right,
            RequestField::HeadersSize => Align::Right,
            RequestField::BodySize => Align::Right,
            RequestField::Comment => Align::Left,
        }
    }

    open spec fn name_spec(&self) -> Seq<char> {
        match self {
            RequestField::Method => "method"@,
            RequestField::Url => "url"@,
            RequestField::Scheme => "scheme"@,
            RequestField::Host => "host"@,
            RequestField::Port => "port"@,
            RequestField::Domain => "domain"@,
            RequestField::Path => "path"@,
            RequestField::Query => "query"@,
            RequestField::Fragment => "fragment"@,
            RequestField::HttpVersion => "httpVersion"@,
            RequestField::HeadersSize => "header ize"@,
            RequestField::BodySize => "bodySize"@,
            RequestField::Comment => "comment"@,
        }
    }

    open spec fn parse_spec(s: Seq<char>) -> Result<Self, nat> {
        if eq_ignore_ascii_case(s, "method"@) {
            Ok(RequestField::Method)
        } else if eq_ignore_ascii_case(s, "url"@) {
            Ok(RequestField::Url)
        } else if eq_ignore_ascii_case(s, "scheme"@) {
            Ok(RequestField::Scheme)
        } else if eq_ignore_ascii_case(s, "host"@) {
            Ok(RequestField::Host)
        } else if eq_ignore_ascii_case(s, "port"@) {
            Ok(RequestField::Port)
        } else if eq_ignore_ascii_case(s, "domain"@) {
            Ok(RequestField::Domain)
        } else if eq_ignore_ascii_case(s, "path"@) {
            Ok(RequestField::Path)
        } else if eq_ignore_ascii_case(s, "query"@) {
            Ok(RequestField::Query)
        } else if eq_ignore_ascii_case(s, "fragment"@) {
            Ok(RequestField::Fragment)
        } else if eq_ignore_ascii_case(s, "httpVersion"@) {
            Ok(RequestField::HttpVersion)
        } else if eq_ignore_ascii_case(s, "headersSize"@) {
            Ok(RequestField::HeadersSize)
        } else if eq_ignore_ascii_case(s, "bodySize"@) {
            Ok(RequestField::BodySize)
        } else if eq_ignore_ascii_case(s, "comment"@) {
            Ok(RequestField::Comment)
        } else {
            Err(0)
        }
    }

    fn header(&self) -> (r: &'static str) {
        match self {
            RequestField::Method => "Method",
            RequestField::Url => "URL",
            RequestField::Scheme => "Scheme",
            RequestField::Host => "Host",
            RequestField::Port => "Port",
            RequestField::Domain => "Domain",
            RequestField::Path => "Path",
            RequestField::Query => "Query",
            RequestField::Fragment => "Fragment",
            RequestField::HttpVersion => "HTTP Version",
            RequestField::HeadersSize => "Request Headers Size",
            RequestField::BodySize => "Request Body Size",
            RequestField::Comment => "Request Comment",
        }
    }

    fn align(&self) -> (r: Align) {
        match self {
            RequestField::Method => Align::Left,
            RequestField::Url => Align::Left,
            RequestField::Scheme => Align::Left,
            RequestField::Host => Align::Left,
            RequestField::Port => Align::Right,
            RequestField::Domain => Align::Left,
            RequestField::Path => Align::Left,
            RequestField::Query => Align::Left,
            RequestField::Fragment => Align::Left,
            RequestField::HttpVersion => Align::Right,
            RequestField::HeadersSize => Align::Right,
            RequestField::BodySize => Align::Right,
            RequestField::Comment => Align::Left,
        }
    }

    fn name(&self) -> (r: String) {
        match self {
            RequestField::Method => "method".to_owned(),
            RequestField::Url => "url".to_owned(),
            RequestField::Scheme => "scheme".to_owned(),
            RequestField::Host => "host".to_owned(),
            RequestField::Port => "port".to_owned(),
            RequestField::Domain => "domain".to_owned(),
            RequestField::Path => "path".to_owned(),
            RequestField::Query => "query".to_owned(),
            RequestField::Fragment => "fragment".to_owned(),
            RequestField::HttpVersion => "httpVersion".to_owned(),
            RequestField::HeadersSize => "header ize".to_owned(),
            RequestField::BodySize => "bodySize".to_owned(),
            RequestField::Comment => "comment".to_owned(),
        }
    }

    fn parse<'a>(field: &'a str) -> (r: Result<Self, ParserError<'a>>) {
        if str_eq_ignore_ascii_case(field, "method") {
            Ok(RequestField::Method)
        } else if str_eq_ignore_ascii_case(field, "url") {
            Ok(RequestField::Url)
        } else if str_eq_ignore_ascii_case(field, "scheme") {
            Ok(RequestField::Scheme)
        } else if str_eq_ignore_ascii_case(field, "host") {
            Ok(RequestField::Host)
        } else if str_eq_ignore_ascii_case(field, "port") {
            Ok(RequestField::Port)
        } else if str_eq_ignore_ascii_case(field, "domain") {
            Ok(RequestField::Domain)
        } else if str_eq_ignore_ascii_case(field, "path") {
            Ok(RequestField::Path)
        } else if str_eq_ignore_ascii_case(field, "query") {
            Ok(RequestField::Query)
        } else if str_eq_ignore_ascii_case(field, "fragment") {
            Ok(RequestField::Fragment)
        } else if str_eq_ignore_ascii_case(field, "httpVersion") {
            Ok(RequestField::HttpVersion)
        } else if str_eq_ignore_ascii_case(field, "headersSize") {
            Ok(RequestField::HeadersSize)
        } else if str_eq_ignore_ascii_case(field, "bodySize") {
            Ok(RequestField::BodySize)
        } else if str_eq_ignore_ascii_case(field, "comment") {
            Ok(RequestField::Comment)
        } else {
            Err(ParserError::new(field, 0))
        }
    }
}

/// A field of a response's content.
#[derive(Debug, Clone, Copy, PartialEq, Eq, Structural)]
pub enum ContentField {
    Size,
    Compression,
    MimeType,
    Text,
    Encoding,
    Comment,
}

impl Field for ContentField {
    open spec fn header_spec(&self) -> Seq<char> {
        match self {
            ContentField::Size => "Content Size"@,
            ContentField::Compression => "Compression"@,
            ContentField::MimeType => "Mime Type"@,
            ContentField::Text => "Content Text"@,
            ContentField::Encoding => "Encoding"@,
            ContentField::Comment => "Content Comment"@,
        }
    }

    open spec fn align_spec(&self) -> Align {
        match self {
            ContentField::Size => Align::Right,
            ContentField::Compression => Align::Right,
            ContentField::MimeType => Align::Left,
            ContentField::Text => Align::Left,
            ContentField::Encoding => Align::Left,
            ContentField::Comment => Align::Left,
        }
    }

    open spec fn name_spec(&self) -> Seq<char> {
        match self {
            ContentField::Size => "size"@,
            ContentField::Compression => "compression"@,
            ContentField::MimeType => "mimeType"@,
            ContentField::Text => "text"@,
            ContentField::Encoding => "encoding"@,
            ContentField::Comment => "comment"@,
        }
    }

    open spec fn parse_spec(s: Seq<char>) -> Result<Self, nat> {
        if eq_ignore_ascii_case(s, "size"@) {
            Ok(ContentField::Size)
        } else if eq_ignore_ascii_case(s, "compression"@) {
            Ok(ContentField::Compression)
        } else if eq_ignore_ascii_case(s, "mimeType"@) {
            Ok(ContentField::MimeType)
        } else if eq_ignore_ascii_case(s, "text"@) {
            Ok(ContentField::Text)
        } else if eq_ignore_ascii_case(s, "encoding"@) {
            Ok(ContentField::Encoding)
        } else if eq_ignore_ascii_case(s, "comment"@) {
            Ok(ContentField::Comment)
        } else {
            Err(0)
        }
    }

    fn header(&self) -> (r: &'static str) {
        match self {
            ContentField::Size => "Content Size",
            ContentField::Compression => "Compression",
            ContentField::MimeType => "Mime Type",
            ContentField::Text => "Content Text",
            ContentField::Encoding => "Encoding",
            ContentField::Comment => "Content Comment",
        }
    }

    fn align(&self) -> (r: Align) {
        match self {
            ContentField::Size => Align::Right,
            ContentField::Compression => Align::Right,
            ContentField::MimeType => Align::Left,
            ContentField::Text => Align::Left,
            ContentField::Encoding => Align::Left,
            ContentField::Comment => Align::Left,
        }
    }

    fn name(&self) -> (r: String) {
        match self {
            ContentField::Size => "size".to_owned(),
            ContentField::Compression => "compression".to_owned(),
            ContentField::MimeType => "mimeType".to_owned(),
            ContentField::Text => "text".to_owned(),
            ContentField::Encoding => "encoding".to_owned(),
            ContentField::Comment => "comment".to_owned(),
        }
    }

    fn parse<'a>(field: &'a str) -> (r: Result<Self, ParserError<'a>>) {
        if str_eq_ignore_ascii_case(field, "size") {
            Ok(ContentField::Size)
        } else if str_eq_ignore_ascii_case(field, "compression") {
            Ok(ContentField::Compression)
        } else if str_eq_ignore_ascii_case(field, "mimeType") {
            Ok(ContentField::MimeType)
        } else if str_eq_ignore_ascii_case(field, "text") {
            Ok(ContentField::Text)
        } else if str_eq_ignore_ascii_case(field, "encoding") {
            Ok(ContentField::Encoding)
        } else if str_eq_ignore_ascii_case(field, "comment") {
            Ok(ContentField::Comment)
        } else {
            Err(ParserError::new(field, 0))
        }
    }
}

/// A field of a cache state.
#[derive(Debug, Clone, Copy, PartialEq, Eq, Structural)]
pub enum CacheStateField {
    Expires,
    LastAccess,
    ETag,
    HitCount,
    Comment,
}

impl Field for CacheStateField {
    open spec fn header_spec(&self) -> Seq<char> {
        match self {
            CacheStateField::Expires => "Expires"@,
            CacheStateField::LastAccess => "Last Access"@,
            CacheStateField::ETag => "E-Tag"@,
            CacheStateField::HitCount => "Hit Count"@,
            CacheStateField::Comment => "Cache State Comment"@,
        }
    }

    open spec fn align_spec(&self) -> Align {
        match self {
            CacheStateField::Expires => Align::Right,
            CacheStateField::LastAccess => Align::Right,
            CacheStateField::ETag => Align::Left,
            CacheStateField::HitCount => Align::Right,
            CacheStateField::Comment => Align::Left,
        }
    }

    open spec fn name_spec(&self) -> Seq<char> {
        match self {
            CacheStateField::Expires => "expires"@,
            CacheStateField::LastAccess => "lastAccess"@,
            CacheStateField::ETag => "etag"@,
            CacheStateField::HitCount => "hitCount"@,
            CacheStateField::Comment => "comment"@,
        }
    }

    open spec fn parse_spec(s: Seq<char>) -> Result<Self, nat> {
        if eq_ignore_ascii_case(s, "expires"@) {
            Ok(CacheStateField::Expires)
        } else if eq_ignore_ascii_case(s, "lastAccess"@) {
            Ok(CacheStateField::LastAccess)
        } else if eq_ignore_ascii_case(s, "eTag"@) {
            Ok(CacheStateField::ETag)
        } else if eq_ignore_ascii_case(s, "hitCount"@) {
            Ok(CacheStateField::HitCount)
        } else if eq_ignore_ascii_case(s, "comment"@) {
            Ok(CacheStateField::Comment)
        } else {
            Err(0)
        }
    }

    fn header(&self) -> (r: &'static str) {
        match self {
            CacheStateField::Expires => "Expires",
            CacheStateField::LastAccess => "Last Access",
            CacheStateField::ETag => "E-Tag",
            CacheStateField::HitCount => "Hit Count",
            CacheStateField::Comment => "Cache State Comment",
        }
    }

    fn align(&self) -> (r: Align) {
        match self {
            CacheStateField::Expires => Align::Right,
            CacheStateField::LastAccess => Align::Right,
            CacheStateField::ETag => Align::Left,
            CacheStateField::HitCount => Align::Right,
            CacheStateField::Comment => Align::Left,
        }
    }

    fn name(&self) -> (r: String) {
        match self {
            CacheStateField::Expires => "expires".to_owned(),
            CacheStateField::LastAccess => "lastAccess".to_owned(),
            CacheStateField::ETag => "etag".to_owned(),
            CacheStateField::HitCount => "hitCount".to_owned(),
            CacheStateField::Comment => "comment".to_owned(),
        }
    }

    fn parse<'a>(field: &'a str) -> (r: Result<Self, ParserError<'a>>) {
        if str_eq_ignore_ascii_case(field, "expires") {
            Ok(CacheStateField::Expires)
        } else if str_eq_ignore_ascii_case(field, "lastAccess") {
            Ok(CacheStateField::LastAccess)
        } else if str_eq_ignore_ascii_case(field, "eTag") {
            Ok(CacheStateField::ETag)
        } else if str_eq_ignore_ascii_case(field, "hitCount") {
            Ok(CacheStateField::HitCount)
        } else if str_eq_ignore_ascii_case(field, "comment") {
            Ok(CacheStateField::Comment)
        } else {
            Err(ParserError::new(field, 0))
        }
    }
}

/// A field of an entry's timings.
#[derive(Debug, Clone, Copy, PartialEq, Eq, Structural)]
pub enum TimingsField {
    Blocked,
    DNS,
    Connect,
    Send,
    Wait,
    Receive,
    SSL,
    Comment,
    _BlockedQueueing,
    _WorkerStart,
    _WorkerReady,
    _WorkerFetchStart,
    _WorkerRespondWithSettled,
}

impl Field for TimingsField {
    open spec fn header_spec(&self) -> Seq<char> {
        match self {
            TimingsField::Blocked => "Blocked"@,
            TimingsField::DNS => "DNS"@,
            TimingsField::Connect => "Connect"@,
            TimingsField::Send => "Send"@,
            TimingsField::Wait => "Wait"@,
            TimingsField::Receive => "Receive"@,
            TimingsField::SSL => "SSL"@,
            TimingsField::Comment => "Timings Comment"@,
            TimingsField::_BlockedQueueing => "Blocked Queueing"@,
            TimingsField::_WorkerStart => "Worker Start"@,
            TimingsField::_WorkerReady => "Worker Ready"@,
            TimingsField::_WorkerFetchStart => "Worker Fetch Start"@,
            TimingsField::_WorkerRespondWithSettled => "Worker Respond With Settled"@,
        }
    }

    open spec fn align_spec(&self) -> Align {
        match self {
            TimingsField::Blocked => Align::Right,
            TimingsField::DNS => Align::Right,
            TimingsField::Connect => Align::Right,
            TimingsField::Send => Align::Right,
            TimingsField::Wait => Align::Right,
            TimingsField::Receive => Align::Right,
            TimingsField::SSL => Align::Right,
            TimingsField::Comment => Align::Left,
            TimingsField::_BlockedQueueing => Align::Right,
            TimingsField::_WorkerStart => Align::Right,
            TimingsField::_WorkerReady => Align::Right,
            TimingsField::_WorkerFetchStart => Align::Right,
            TimingsField::_WorkerRespondWithSettled => Align::Right,
        }
    }

    open spec fn name_spec(&self) -> Seq<char> {
        match self {
            TimingsField::Blocked => "blocked"@,
            TimingsField::DNS => "dns"@,
            TimingsField::Connect => "connect"@,
            TimingsField::Send => "send"@,
            TimingsField::Wait => "wait"@,
            TimingsField::Receive => "receive"@,
            TimingsField::SSL => "ssl"@,
            TimingsField::Comment => "comment"@,
            TimingsField::_BlockedQueueing => "_blocked_queueing"@,
            TimingsField::_WorkerStart => "_workerStart"@,
            TimingsField::_WorkerReady => "_workerReady"@,
            TimingsField::_WorkerFetchStart => "_workerFetchStart"@,
            TimingsField::_WorkerRespondWithSettled => "_workerRespondWithSettled"@,
        }
    }

    open spec fn parse_spec(s: Seq<char>) -> Result<Self, nat> {
        if eq_ignore_ascii_case(s, "blocked"@) {
            Ok(TimingsField::Blocked)
        } else if eq_ignore_ascii_case(s, "dns"@) {
            Ok(TimingsField::DNS)
        } else if eq_ignore_ascii_case(s, "connect"@) {
            Ok(TimingsField::Connect)
        } else if eq_ignore_ascii_case(s, "send"@) {
            Ok(TimingsField::Send)
        } else if eq_ignore_ascii_case(s, "wait"@) {
            Ok(TimingsField::Wait)
        } else if eq_ignore_ascii_case(s, "receive"@) {
            Ok(TimingsField::Receive)
        } else if eq_ignore_ascii_case(s, "ssl"@) {
            Ok(TimingsField::SSL)
        } else if eq_ignore_ascii_case(s, "_blocked_queueing"@) || eq_ignore_ascii_case(s, "_blockedQueueing"@) {
            Ok(TimingsField::_BlockedQueueing)
        } else if eq_ignore_ascii_case(s, "_workerStart"@) {
            Ok(TimingsField::_WorkerStart)
        } else if eq_ignore_ascii_case(s, "_workerReady"@) {
            Ok(TimingsField::_WorkerReady)
        } else if eq_ignore_ascii_case(s, "_workerFetchStart"@) {
            Ok(TimingsField::_WorkerFetchStart)
        } else if eq_ignore_ascii_case(s, "_workerRespondWithSettled"@) {
            Ok(TimingsField::_WorkerRespondWithSettled)
        } else if eq_ignore_ascii_case(s, "comment"@) {
            Ok(TimingsField::Comment)
        } else {
            Err(0)
        }
    }

    fn header(&self) -> (r: &'static str) {
        match self {
            TimingsField::Blocked => "Blocked",
            TimingsField::DNS => "DNS",
            TimingsField::Connect => "Connect",
            TimingsField::Send => "Send",
            TimingsField::Wait => "Wait",
            TimingsField::Receive => "Receive",
            TimingsField::SSL => "SSL",
            TimingsField::Comment => "Timings Comment",
            TimingsField::_BlockedQueueing => "Blocked Queueing",
            TimingsField::_WorkerStart => "Worker Start",
            TimingsField::_WorkerReady => "Worker Ready",
            TimingsField::_WorkerFetchStart => "Worker Fetch Start",
            TimingsField::_WorkerRespondWithSettled => "Worker Respond With Settled",
        }
    }

    fn align(&self) -> (r: Align) {
        match self {
            TimingsField::Blocked => Align::Right,
            TimingsField::DNS => Align::Right,
            TimingsField::Connect => Align::Right,
            TimingsField::Send => Align::Right,
            TimingsField::Wait => Align::Right,
            TimingsField::Receive => Align::Right,
            TimingsField::SSL => Align::Right,
            TimingsField::Comment => Align::Left,
            TimingsField::_BlockedQueueing => Align::Right,
            TimingsField::_WorkerStart => Align::Right,
            TimingsField::_WorkerReady => Align::Right,
            TimingsField::_WorkerFetchStart => Align::Right,
            TimingsField::_WorkerRespondWithSettled => Align::Right,
        }
    }

    fn name(&self) -> (r: String) {
        match self {
            TimingsField::Blocked => "blocked".to_owned(),
            TimingsField::DNS => "dns".to_owned(),
            TimingsField::Connect => "connect".to_owned(),
            TimingsField::Send => "send".to_owned(),
            TimingsField::Wait => "wait".to_owned(),
            TimingsField::Receive => "receive".to_owned(),
            TimingsField::SSL => "ssl".to_owned(),
            TimingsField::Comment => "comment".to_owned(),
            TimingsField::_BlockedQueueing => "_blocked_queueing".to_owned(),
            TimingsField::_WorkerStart => "_workerStart".to_owned(),
            TimingsField::_WorkerReady => "_workerReady".to_owned(),
            TimingsField::_WorkerFetchStart => "_workerFetchStart".to_owned(),
            TimingsField::_WorkerRespondWithSettled => "_workerRespondWithSettled".to_owned(),
        }
    }

    fn parse<'a>(field: &'a str) -> (r: Result<Self, ParserError<'a>>) {
        if str_eq_ignore_ascii_case(field, "blocked") {
            Ok(TimingsField::Blocked)
        } else if str_eq_ignore_ascii_case(field, "dns") {
            Ok(TimingsField::DNS)
        } else if str_eq_ignore_ascii_case(field, "connect") {
            Ok(TimingsField::Connect)
        } else if str_eq_ignore_ascii_case(field, "send") {
            Ok(TimingsField::Send)
        } else if str_eq_ignore_ascii_case(field, "wait") {
            Ok(TimingsField::Wait)
        } else if str_eq_ignore_ascii_case(field, "receive") {
            Ok(TimingsField::Receive)
        } else if str_eq_ignore_ascii_case(field, "ssl") {
            Ok(TimingsField::SSL)
        } else if str_eq_ignore_ascii_case(field, "_blocked_queueing") || str_eq_ignore_ascii_case(field, "_blockedQueueing") {
            Ok(TimingsField::_BlockedQueueing)
        } else if str_eq_ignore_ascii_case(field, "_workerStart") {
            Ok(TimingsField::_WorkerStart)
        } else if str_eq_ignore_ascii_case(field, "_workerReady") {
            Ok(TimingsField::_WorkerReady)
        } else if str_eq_ignore_ascii_case(field, "_workerFetchStart") {
            Ok(TimingsField::_WorkerFetchStart)
        } else if str_eq_ignore_ascii_case(field, "_workerRespondWithSettled") {
            Ok(TimingsField::_WorkerRespondWithSettled)
        } else if str_eq_ignore_ascii_case(field, "comment") {
            Ok(TimingsField::Comment)
        } else {
            Err(ParserError::new(field, 0))
        }
    }
}

/// A field of a page's timings.
#[derive(Debug, Clone, Copy, PartialEq, Eq, Structural)]
pub enum PageTimingsField {
    OnContentLoad,
    OnLoad,
    Comment,
}

impl Field for PageTimingsField {
    open spec fn header_spec(&self) -> Seq<char> {
        match self {
            PageTimingsField::OnContentLoad => "On Content Load"@,
            PageTimingsField::OnLoad => "On Load"@,
            PageTimingsField::Comment => "Comment"@,
        }
    }

    open spec fn align_spec(&self) -> Align {
        match self {
            PageTimingsField::OnContentLoad => Align::Left,
            PageTimingsField::OnLoad => Align::Left,
            PageTimingsField::Comment => Align::Left,
        }
    }

    open spec fn name_spec(&self) -> Seq<char> {
        match self {
            PageTimingsField::OnContentLoad => "onContentLoad"@,
            PageTimingsField::OnLoad => "onLoad"@,
            PageTimingsField::Comment => "comment"@,
        }
    }

    open spec fn parse_spec(s: Seq<char>) -> Result<Self, nat> {
        if eq_ignore_ascii_case(s, "OnContentLoad"@) {
            Ok(PageTimingsField::OnContentLoad)
        } else if eq_ignore_ascii_case(s, "OnLoad"@) {
            Ok(PageTimingsField::OnLoad)
        } else if eq_ignore_ascii_case(s, "Comment"@) {
            Ok(PageTimingsField::Comment)
        } else {
            Err(0)
        }
    }

    fn header(&self) -> (r: &'static str) {
        match self {
            PageTimingsField::OnContentLoad => "On Content Load",
            PageTimingsField::OnLoad => "On Load",
            PageTimingsField::Comment => "Comment",
        }
    }

    fn align(&self) -> (r: Align) {
        match self {
            PageTimingsField::OnContentLoad => Align::Left,
            PageTimingsField::OnLoad => Align::Left,
            PageTimingsField::Comment => Align::Left,
        }
    }

    fn name(&self) -> (r: String) {
        match self {
            PageTimingsField::OnContentLoad => "onContentLoad".to_owned(),
            PageTimingsField::OnLoad => "onLoad".to_owned(),
            PageTimingsField::Comment => "comment".to_owned(),
        }
    }

    fn parse<'a>(field: &'a str) -> (r: Result<Self, ParserError<'a>>) {
        if str_eq_ignore_ascii_case(field, "OnContentLoad") {
            Ok(PageTimingsField::OnContentLoad)
        } else if str_eq_ignore_ascii_case(field, "OnLoad") {
            Ok(PageTimingsField::OnLoad)
        } else if str_eq_ignore_ascii_case(field, "Comment") {
            Ok(PageTimingsField::Comment)
        } else {
            Err(ParserError::new(field, 0))
        }
    }
}

/// A field of an entry of the archive.
#[derive(Debug, Clone, Copy, PartialEq, Eq, Structural)]
pub enum EntryField {
    Index,
    StartedDateTime,
    Time,
    Request(RequestField),
    Response(ResponseField),
    Cache(CacheField),
    Timings(TimingsField),
    ServerIpAddress,
    Connection,
    Comment,
    _ConnectionId,
    _SecurityState,
    _Initiator(InitiatorField),
    _Priority,
    _ResourceType,
    _FromCache,
}

impl Field for EntryField {
    open spec fn header_spec(&self) -> Seq<char> {
        match self {
            EntryField::Index => "Index"@,
            EntryField::StartedDateTime => "Started At"@,
            EntryField::Time => "Time"@,
            EntryField::Request(f) => f.header_spec(),
            EntryField::Response(f) => f.header_spec(),
            EntryField::Cache(f) => f.header_spec(),
            EntryField::Timings(f) => f.header_spec(),
            EntryField::ServerIpAddress => "Server IP"@,
            EntryField::Connection => "Connection"@,
            EntryField::Comment => "Comment"@,
            EntryField::_ConnectionId => "Connection Id"@,
            EntryField::_SecurityState => "Security State"@,
            EntryField::_Initiator(f) => f.header_spec(),
            EntryField::_Priority => "Priority"@,
            EntryField::_ResourceType => "Resource Type"@,
            EntryField::_FromCache => "From Cache"@,
        }
    }

    open spec fn align_spec(&self) -> Align {
        match self {
            EntryField::Index => Align::Right,
            EntryField::StartedDateTime => Align::Left,
            EntryField::Time => Align::Right,
            EntryField::Request(f) => f.align_spec(),
            EntryField::Response(f) => f.align_spec(),
            EntryField::Cache(f) => f.align_spec(),
            EntryField::Timings(f) => f.align_spec(),
            EntryField::ServerIpAddress => Align::Right,
            EntryField::Connection => Align::Left,
            EntryField::Comment => Align::Left,
            EntryField::_ConnectionId => Align::Left,
            EntryField::_SecurityState => Align::Left,
            EntryField::_Initiator(f) => f.align_spec(),
            EntryField::_Priority => Align::Left,
            EntryField::_ResourceType => Align::Left,
            EntryField::_FromCache => Align::Left,
        }
    }

    open spec fn name_spec(&self) -> Seq<char> {
        match self {
            EntryField::Index => "_index"@,
            EntryField::StartedDateTime => "startedDateTime"@,
            EntryField::Time => "time"@,
            EntryField::Request(f) => "request."@ + f.name_spec(),
            EntryField::Response(f) => "result."@ + f.name_spec(),
            EntryField::Cache(f) => "cache."@ + f.name_spec(),
            EntryField::Timings(f) => "timings."@ + f.name_spec(),
            EntryField::ServerIpAddress => "serverIPAddress"@,
            EntryField::Connection => "connection"@,
            EntryField::Comment => "comment"@,
            EntryField::_ConnectionId => "_connectionId"@,
            EntryField::_SecurityState => "_securityState"@,
            EntryField::_Initiator(f) => "_initiator."@ + f.name_spec(),
            EntryField::_Priority => "_priority"@,
            EntryField::_ResourceType => "_resourceType"@,
            EntryField::_FromCache => "_fromCache"@,
        }
    }

    open spec fn parse_spec(s: Seq<char>) -> Result<Self, nat> {
        let d = first_dot(s, 0);
        if d >= 0 {
            let head = s.take(d);
            let tail = s.skip(d + 1);
            if eq_ignore_ascii_case(head, "request"@) {
                match RequestField::parse_spec(tail) {
                    Ok(f) => Ok(EntryField::Request(f)),
                    Err(i) => Err((byte_offset(s, d) + 1 + i) as nat),
                }
            } else if eq_ignore_ascii_case(head, "response"@) {
                match ResponseField::parse_spec(tail) {
                    Ok(f) => Ok(EntryField::Response(f)),
                    Err(i) => Err((byte_offset(s, d) + 1 + i) as nat),
                }
            } else if eq_ignore_ascii_case(head, "cache"@) {
                match CacheField::parse_spec(tail) {
                    Ok(f) => Ok(EntryField::Cache(f)),
                    Err(i) => Err((byte_offset(s, d) + 1 + i) as nat),
                }
            } else if eq_ignore_ascii_case(head, "timings"@) {
                match TimingsField::parse_spec(tail) {
                    Ok(f) => Ok(EntryField::Timings(f)),
                    Err(i) => Err((byte_offset(s, d) + 1 + i) as nat),
                }
            } else if eq_ignore_ascii_case(head, "_initiator"@) {
                match InitiatorField::parse_spec(tail) {
                    Ok(f) => Ok(EntryField::_Initiator(f)),
                    Err(i) => Err((byte_offset(s, d) + 1 + i) as nat),
                }
            } else {
                Err(0)
            }
        } else if eq_ignore_ascii_case(s, "_index"@) {
            Ok(EntryField::Index)
        } else if eq_ignore_ascii_case(s, "startedDateTime"@) {
            Ok(EntryField::StartedDateTime)
        } else if eq_ignore_ascii_case(s, "time"@) {
            Ok(EntryField::Time)
        } else if eq_ignore_ascii_case(s, "serverIpAddress"@) {
            Ok(EntryField::ServerIpAddress)
        } else if eq_ignore_ascii_case(s, "connection"@) {
            Ok(EntryField::Connection)
        } else if eq_ignore_ascii_case(s, "comment"@) {
            Ok(EntryField::Comment)
        } else if eq_ignore_ascii_case(s, "_connectionId"@) {
            Ok(EntryField::_ConnectionId)
        } else if eq_ignore_ascii_case(s, "_securityState"@) {
            Ok(EntryField::_SecurityState)
        } else if eq_ignore_ascii_case(s, "_priority"@) {
            Ok(EntryField::_Priority)
        } else if eq_ignore_ascii_case(s, "_resourceType"@) {
            Ok(EntryField::_ResourceType)
        } else if eq_ignore_ascii_case(s, "_fromCache"@) {
            Ok(EntryField::_FromCache)
        } else {
            Err(0)
        }
    }

    fn header(&self) -> (r: &'static str) {
        match self {
            EntryField::Index => "Index",
            EntryField::StartedDateTime => "Started At",
            EntryField::Time => "Time",
            EntryField::Request(f) => f.header(),
            EntryField::Response(f) => f.header(),
            EntryField::Cache(f) => f.header(),
            EntryField::Timings(f) => f.header(),
            EntryField::ServerIpAddress => "Server IP",
            EntryField::Connection => "Connection",
            EntryField::Comment => "Comment",
            EntryField::_ConnectionId => "Connection Id",
            EntryField::_SecurityState => "Security State",
            EntryField::_Initiator(f) => f.header(),
            EntryField::_Priority => "Priority",
            EntryField::_ResourceType => "Resource Type",
            EntryField::_FromCache => "From Cache",
        }
    }

    fn align(&self) -> (r: Align) {
        match self {
            EntryField::Index => Align::Right,
            EntryField::StartedDateTime => Align::Left,
            EntryField::Time => Align::Right,
            EntryField::Request(f) => f.align(),
            EntryField::Response(f) => f.align(),
            EntryField::Cache(f) => f.align(),
            EntryField::Timings(f) => f.align(),
            EntryField::ServerIpAddress => Align::Right,
            EntryField::Connection => Align::Left,
            EntryField::Comment => Align::Left,
            EntryField::_ConnectionId => Align::Left,
            EntryField::_SecurityState => Align::Left,
            EntryField::_Initiator(f) => f.align(),
            EntryField::_Priority => Align::Left,
            EntryField::_ResourceType => Align::Left,
            EntryField::_FromCache => Align::Left,
        }
    }

    fn name(&self) -> (r: String) {
        match self {
            EntryField::Index => "_index".to_owned(),
            EntryField::StartedDateTime => "startedDateTime".to_owned(),
            EntryField::Time => "time".to_owned(),
            EntryField::Request(f) => prefixed("request.", f.name()),
            EntryField::Response(f) => prefixed("result.", f.name()),
            EntryField::Cache(f) => prefixed("cache.", f.name()),
            EntryField::Timings(f) => prefixed("timings.", f.name()),
            EntryField::ServerIpAddress => "serverIPAddress".to_owned(),
            EntryField::Connection => "connection".to_owned(),
            EntryField::Comment => "comment".to_owned(),
            EntryField::_ConnectionId => "_connectionId".to_owned(),
            EntryField::_SecurityState => "_securityState".to_owned(),
            EntryField::_Initiator(f) => prefixed("_initiator.", f.name()),
            EntryField::_Priority => "_priority".to_owned(),
            EntryField::_ResourceType => "_resourceType".to_owned(),
            EntryField::_FromCache => "_fromCache".to_owned(),
        }
    }

    fn parse<'a>(field: &'a str) -> (r: Result<Self, ParserError<'a>>) {
        let t = to_chars(field);
        match find_dot(t.as_slice()) {
            Some(d) => {
                let head = field.substring_char(0, d);
                let tail = field.substring_char(d + 1, t.len());
                let offs = byte_offsets(t.as_slice());
                let hb = offs[d];
                proof {
                    lemma_offset_bound(t@, d as int);
                    assert(head@ == field@.take(d as int));
                    assert(tail@ == field@.skip(d + 1));
                }
                if str_eq_ignore_ascii_case(head, "request") {
                    match RequestField::parse(tail) {
                        Ok(f) => Ok(EntryField::Request(f)),
                        Err(e) => Err(ParserError::new(field, hb + 1 + e.index())),
                    }
                } else if str_eq_ignore_ascii_case(head, "response") {
                    match ResponseField::parse(tail) {
                        Ok(f) => Ok(EntryField::Response(f)),
                        Err(e) => Err(ParserError::new(field, hb + 1 + e.index())),
                    }
                } else if str_eq_ignore_ascii_case(head, "cache") {
                    match CacheField::parse(tail) {
                        Ok(f) => Ok(EntryField::Cache(f)),
                        Err(e) => Err(ParserError::new(field, hb + 1 + e.index())),
                    }
                } else if str_eq_ignore_ascii_case(head, "timings") {
                    match TimingsField::parse(tail) {
                        Ok(f) => Ok(EntryField::Timings(f)),
                        Err(e) => Err(ParserError::new(field, hb + 1 + e.index())),
                    }
                } else if str_eq_ignore_ascii_case(head, "_initiator") {
                    match InitiatorField::parse(tail) {
                        Ok(f) => Ok(EntryField::_Initiator(f)),
                        Err(e) => Err(ParserError::new(field, hb + 1 + e.index())),
                    }
                } else {
                    Err(ParserError::new(field, 0))
                }
            },
            None => {
                if str_eq_ignore_ascii_case(field, "_index") {
                    Ok(EntryField::Index)
                } else if str_eq_ignore_ascii_case(field, "startedDateTime") {
                    Ok(EntryField::StartedDateTime)
                } else if str_eq_ignore_ascii_case(field, "time") {
                    Ok(EntryField::Time)
                } else if str_eq_ignore_ascii_case(field, "serverIpAddress") {
                    Ok(EntryField::ServerIpAddress)
                } else if str_eq_ignore_ascii_case(field, "connection") {
                    Ok(EntryField::Connection)
                } else if str_eq_ignore_ascii_case(field, "comment") {
                    Ok(EntryField::Comment)
                } else if str_eq_ignore_ascii_case(field, "_connectionId") {
                    Ok(EntryField::_ConnectionId)
                } else if str_eq_ignore_ascii_case(field, "_securityState") {
                    Ok(EntryField::_SecurityState)
                } else if str_eq_ignore_ascii_case(field, "_priority") {
                    Ok(EntryField::_Priority)
                } else if str_eq_ignore_ascii_case(field, "_resourceType") {
                    Ok(EntryField::_ResourceType)
                } else if str_eq_ignore_ascii_case(field, "_fromCache") {
                    Ok(EntryField::_FromCache)
                } else {
                    Err(ParserError::new(field, 0))
                }
            },
        }
    }
}

/// A field of a response.
#[derive(Debug, Clone, Copy, PartialEq, Eq, Structural)]
pub enum ResponseField {
    Status,
    StatusText,
    RedirectUrl,
    Content(ContentField),
    HeadersSize,
    BodySize,
    Comment,
    _TransferSize,
    _Error,
    _FetchedViaServiceWorker,
}

impl Field for ResponseField {
    open spec fn header_spec(&self) -> Seq<char> {
        match self {
            ResponseField::Status => "Status"@,
            ResponseField::StatusText => "Status Text"@,
            ResponseField::RedirectUrl => "Redirect URL"@,
            ResponseField::Content(f) => f.header_spec(),
            ResponseField::HeadersSize => "Response Headers Size"@,
            ResponseField::BodySize => "Response Body Size"@,
            ResponseField::Comment => "Response Comment"@,
            ResponseField::_TransferSize => "Transfer Size"@,
            ResponseField::_Error => "Error"@,
            ResponseField::_FetchedViaServiceWorker => "Fetched Via Service Worker"@,
        }
    }

    open spec fn align_spec(&self) -> Align {
        match self {
            ResponseField::Status => Align::Right,
            ResponseField::StatusText => Align::Left,
            ResponseField::RedirectUrl => Align::Left,
            ResponseField::Content(f) => f.align_spec(),
            ResponseField::HeadersSize => Align::Right,
            ResponseField::BodySize => Align::Right,
            ResponseField::Comment => Align::Left,
            ResponseField::_TransferSize => Align::Right,
            ResponseField::_Error => Align::Left,
            ResponseField::_FetchedViaServiceWorker => Align::Left,
        }
    }

    open spec fn name_spec(&self) -> Seq<char> {
        match self {
            ResponseField::Status => "status"@,
            ResponseField::StatusText => "statusText"@,
            ResponseField::RedirectUrl => "redirectURL"@,
            ResponseField::Content(f) => "content."@ + f.name_spec(),
            ResponseField::HeadersSize => "headerSize"@,
            ResponseField::BodySize => "bodySize"@,
            ResponseField::Comment => "comment"@,
            ResponseField::_TransferSize => "_transferSize"@,
            ResponseField::_Error => "_error"@,
            ResponseField::_FetchedViaServiceWorker => "_fetchedViaServiceWorker"@,
        }
    }

    open spec fn parse_spec(s: Seq<char>) -> Result<Self, nat> {
        let d = first_dot(s, 0);
        if d >= 0 {
            let head = s.take(d);
            let tail = s.skip(d + 1);
            if eq_ignore_ascii_case(head, "content"@) {
                match ContentField::parse_spec(tail) {
                    Ok(f) => Ok(ResponseField::Content(f)),
                    Err(i) => Err((byte_offset(s, d) + 1 + i) as nat),
                }
            } else {
                Err(0)
            }
        } else if eq_ignore_ascii_case(s, "status"@) {
            Ok(ResponseField::Status)
        } else if eq_ignore_ascii_case(s, "statusText"@) {
            Ok(ResponseField::StatusText)
        } else if eq_ignore_ascii_case(s, "redirectUrl"@) {
            Ok(ResponseField::RedirectUrl)
        } else if eq_ignore_ascii_case(s, "headersSize"@) {
            Ok(ResponseField::HeadersSize)
        } else if eq_ignore_ascii_case(s, "bodySize"@) {
            Ok(ResponseField::BodySize)
        } else if eq_ignore_ascii_case(s, "comment"@) {
            Ok(ResponseField::Comment)
        } else if eq_ignore_ascii_case(s, "_transferSize"@) {
            Ok(ResponseField::_TransferSize)
        } else if eq_ignore_ascii_case(s, "_error"@) {
            Ok(ResponseField::_Error)
        } else if eq_ignore_ascii_case(s, "_fetchedViaServiceWorker"@) {
            Ok(ResponseField::_FetchedViaServiceWorker)
        } else {
            Err(0)
        }
    }

    fn header(&self) -> (r: &'static str) {
        match self {
            ResponseField::Status => "Status",
            ResponseField::StatusText => "Status Text",
            ResponseField::RedirectUrl => "Redirect URL",
            ResponseField::Content(f) => f.header(),
            ResponseField::HeadersSize => "Response Headers Size",
            ResponseField::BodySize => "Response Body Size",
            ResponseField::Comment => "Response Comment",
            ResponseField::_TransferSize => "Transfer Size",
            ResponseField::_Error => "Error",
            ResponseField::_FetchedViaServiceWorker => "Fetched Via Service Worker",
        }
    }

    fn align(&self) -> (r: Align) {
        match self {
            ResponseField::Status => Align::Right,
            ResponseField::StatusText => Align::Left,
            ResponseField::RedirectUrl => Align::Left,
            ResponseField::Content(f) => f.align(),
            ResponseField::HeadersSize => Align::Right,
            ResponseField::BodySize => Align::Right,
            ResponseField::Comment => Align::Left,
            ResponseField::_TransferSize => Align::Right,
            ResponseField::_Error => Align::Left,
            ResponseField::_FetchedViaServiceWorker => Align::Left,
        }
    }

    fn name(&self) -> (r: String) {
        match self {
            ResponseField::Status => "status".to_owned(),
            ResponseField::StatusText => "statusText".to_owned(),
            ResponseField::RedirectUrl => "redirectURL".to_owned(),
            ResponseField::Content(f) => prefixed("content.", f.name()),
            ResponseField::HeadersSize => "headerSize".to_owned(),
            ResponseField::BodySize => "bodySize".to_owned(),
            ResponseField::Comment => "comment".to_owned(),
            ResponseField::_TransferSize => "_transferSize".to_owned(),
            ResponseField::_Error => "_error".to_owned(),
            ResponseField::_FetchedViaServiceWorker => "_fetchedViaServiceWorker".to_owned(),
        }
    }

    fn parse<'a>(field: &'a str) -> (r: Result<Self, ParserError<'a>>) {
        let t = to_chars(field);
        match find_dot(t.as_slice()) {
            Some(d) => {
                let head = field.substring_char(0, d);
                let tail = field.substring_char(d + 1, t.len());
                let offs = byte_offsets(t.as_slice());
                let hb = offs[d];
                proof {
                    lemma_offset_bound(t@, d as int);
                    assert(head@ == field@.take(d as int));
                    assert(tail@ == field@.skip(d + 1));
                }
                if str_eq_ignore_ascii_case(head, "content") {
                    match ContentField::parse(tail) {
                        Ok(f) => Ok(ResponseField::Content(f)),
                        Err(e) => Err(ParserError::new(field, hb + 1 + e.index())),
                    }
                } else {
                    Err(ParserError::new(field, 0))
                }
            },
            None => {
                if str_eq_ignore_ascii_case(field, "status") {
                    Ok(ResponseField::Status)
                } else if str_eq_ignore_ascii_case(field, "statusText") {
                    Ok(ResponseField::StatusText)
                } else if str_eq_ignore_ascii_case(field, "redirectUrl") {
                    Ok(ResponseField::RedirectUrl)
                } else if str_eq_ignore_ascii_case(field, "headersSize") {
                    Ok(ResponseField::HeadersSize)
                } else if str_eq_ignore_ascii_case(field, "bodySize") {
                    Ok(ResponseField::BodySize)
                } else if str_eq_ignore_ascii_case(field, "comment") {
                    Ok(ResponseField::Comment)
                } else if str_eq_ignore_ascii_case(field, "_transferSize") {
                    Ok(ResponseField::_TransferSize)
                } else if str_eq_ignore_ascii_case(field, "_error") {
                    Ok(ResponseField::_Error)
                } else if str_eq_ignore_ascii_case(field, "_fetchedViaServiceWorker") {
                    Ok(ResponseField::_FetchedViaServiceWorker)
                } else {
                    Err(ParserError::new(field, 0))
                }
            },
        }
    }
}

/// A field of an entry's cache information.
#[derive(Debug, Clone, Copy, PartialEq, Eq, Structural)]
pub enum CacheField {
    BeforeRequest(CacheStateField),
    AfterRequest(CacheStateField),
    Comment,
}

impl Field for CacheField {
    open spec fn header_spec(&self) -> Seq<char> {
        match self {
            CacheField::BeforeRequest(CacheStateField::Expires) => "Before Request Expires"@,
            CacheField::BeforeRequest(CacheStateField::LastAccess) => "Before Request Last Access"@,
            CacheField::BeforeRequest(CacheStateField::ETag) => "Before Request E-Tag"@,
            CacheField::BeforeRequest(CacheStateField::HitCount) => "Before Request Hit Count"@,
            CacheField::BeforeRequest(CacheStateField::Comment) => "Before Request Cache State Comment"@,
            CacheField::AfterRequest(CacheStateField::Expires) => "After Request Expires"@,
            CacheField::AfterRequest(CacheStateField::LastAccess) => "After Request Last Access"@,
            CacheField::AfterRequest(CacheStateField::ETag) => "After Request E-Tag"@,
            CacheField::AfterRequest(CacheStateField::HitCount) => "After Request Hit Count"@,
            CacheField::AfterRequest(CacheStateField::Comment) => "After Request Cache State Comment"@,
            CacheField::Comment => "Cache Comment"@,
        }
    }

    open spec fn align_spec(&self) -> Align {
        match self {
            CacheField::BeforeRequest(f) => f.align_spec(),
            CacheField::AfterRequest(f) => f.align_spec(),
            CacheField::Comment => Align::Left,
        }
    }

    open spec fn name_spec(&self) -> Seq<char> {
        match self {
            CacheField::BeforeRequest(f) => "beforeRequest."@ + f.name_spec(),
            CacheField::AfterRequest(f) => "afterRequest."@ + f.name_spec(),
            CacheField::Comment => "comment"@,
        }
    }

    open spec fn parse_spec(s: Seq<char>) -> Result<Self, nat> {
        let d = first_dot(s, 0);
        if d >= 0 {
            let head = s.take(d);
            let tail = s.skip(d + 1);
            if eq_ignore_ascii_case(head, "beforeRequest"@) {
                match CacheStateField::parse_spec(tail) {
                    Ok(f) => Ok(CacheField::BeforeRequest(f)),
                    Err(i) => Err((byte_offset(s, d) + 1 + i) as nat),
                }
            } else if eq_ignore_ascii_case(head, "afterRequest"@) {
                match CacheStateField::parse_spec(tail) {
                    Ok(f) => Ok(CacheField::AfterRequest(f)),
                    Err(i) => Err((byte_offset(s, d) + 1 + i) as nat),
                }
            } else {
                Err(0)
            }
        } else if eq_ignore_ascii_case(s, "comment"@) {
            Ok(CacheField::Comment)
        } else {
            Err(0)
        }
    }

    fn header(&self) -> (r: &'static str) {
        match self {
            CacheField::BeforeRequest(CacheStateField::Expires) => "Before Request Expires",
            CacheField::BeforeRequest(CacheStateField::LastAccess) => "Before Request Last Access",
            CacheField::BeforeRequest(CacheStateField::ETag) => "Before Request E-Tag",
            CacheField::BeforeRequest(CacheStateField::HitCount) => "Before Request Hit Count",
            CacheField::BeforeRequest(CacheStateField::Comment) => "Before Request Cache State Comment",
            CacheField::AfterRequest(CacheStateField::Expires) => "After Request Expires",
            CacheField::AfterRequest(CacheStateField::LastAccess) => "After Request Last Access",
            CacheField::AfterRequest(CacheStateField::ETag) => "After Request E-Tag",
            CacheField::AfterRequest(CacheStateField::HitCount) => "After Request Hit Count",
            CacheField::AfterRequest(CacheStateField::Comment) => "After Request Cache State Comment",
            CacheField::Comment => "Cache Comment",
        }
    }

    fn align(&self) -> (r: Align) {
        match self {
            CacheField::BeforeRequest(f) => f.align(),
            CacheField::AfterRequest(f) => f.align(),
            CacheField::Comment => Align::Left,
        }
    }

    fn name(&self) -> (r: String) {
        match self {
            CacheField::BeforeRequest(f) => prefixed("beforeRequest.", f.name()),
            CacheField::AfterRequest(f) => prefixed("afterRequest.", f.name()),
            CacheField::Comment => "comment".to_owned(),
        }
    }

    fn parse<'a>(field: &'a str) -> (r: Result<Self, ParserError<'a>>) {
        let t = to_chars(field);
        match find_dot(t.as_slice()) {
            Some(d) => {
                let head = field.substring_char(0, d);
                let tail = field.substring_char(d + 1, t.len());
                let offs = byte_offsets(t.as_slice());
                let hb = offs[d];
                proof {
                    lemma_offset_bound(t@, d as int);
                    assert(head@ == field@.take(d as int));
                    assert(tail@ == field@.skip(d + 1));
                }
                if str_eq_ignore_ascii_case(head, "beforeRequest") {
                    match CacheStateField::parse(tail) {
                        Ok(f) => Ok(CacheField::BeforeRequest(f)),
                        Err(e) => Err(ParserError::new(field, hb + 1 + e.index())),
                    }
                } else if str_eq_ignore_ascii_case(head, "afterRequest") {
                    match CacheStateField::parse(tail) {
                        Ok(f) => Ok(CacheField::AfterRequest(f)),
                        Err(e) => Err(ParserError::new(field, hb + 1 + e.index())),
                    }
                } else {
                    Err(ParserError::new(field, 0))
                }
            },
            None => {
                if str_eq_ignore_ascii_case(field, "comment") {
                    Ok(CacheField::Comment)
                } else {
                    Err(ParserError::new(field, 0))
                }
            },
        }
    }
}

/// A field of a page of the archive.
#[derive(Debug, Clone, Copy, PartialEq, Eq, Structural)]
pub enum PageField {
    Index,
    StartedDateTime,
    Id,
    Title,
    PageTimings(PageTimingsField),
    Comment,
}

impl Field for PageField {
    open spec fn header_spec(&self) -> Seq<char> {
        match self {
            PageField::Index => "Index"@,
            PageField::StartedDateTime => "Started At"@,
            PageField::Id => "Id"@,
            PageField::Title => "Title"@,
            PageField::PageTimings(f) => f.header_spec(),
            PageField::Comment => "Comment"@,
        }
    }

    open spec fn align_spec(&self) -> Align {
        match self {
            PageField::Index => Align::Right,
            PageField::StartedDateTime => Align::Left,
            PageField::Id => Align::Left,
            PageField::Title => Align::Left,
            PageField::PageTimings(f) => f.align_spec(),
            PageField::Comment => Align::Left,
        }
    }

    open spec fn name_spec(&self) -> Seq<char> {
        match self {
            PageField::Index => "_index"@,
            PageField::StartedDateTime => "startedDateTime"@,
            PageField::Id => "id"@,
            PageField::Title => "title"@,
            PageField::PageTimings(f) => "pageTimings."@ + f.name_spec(),
            PageField::Comment => "comment"@,
        }
    }

    open spec fn parse_spec(s: Seq<char>) -> Result<Self, nat> {
        let d = first_dot(s, 0);
        if d >= 0 {
            let head = s.take(d);
            let tail = s.skip(d + 1);
            if eq_ignore_ascii_case(head, "pageTimings"@) {
                match PageTimingsField::parse_spec(tail) {
                    Ok(f) => Ok(PageField::PageTimings(f)),
                    Err(i) => Err((byte_offset(s, d) + 1 + i) as nat),
                }
            } else {
                Err(0)
            }
        } else if eq_ignore_ascii_case(s, "_index"@) {
            Ok(PageField::Index)
        } else if eq_ignore_ascii_case(s, "startedDateTime"@) {
            Ok(PageField::StartedDateTime)
        } else if eq_ignore_ascii_case(s, "id"@) {
            Ok(PageField::Id)
        } else if eq_ignore_ascii_case(s, "title"@) {
            Ok(PageField::Title)
        } else if eq_ignore_ascii_case(s, "comment"@) {
            Ok(PageField::Comment)
        } else {
            Err(0)
        }
    }

    fn header(&self) -> (r: &'static str) {
        match self {
            PageField::Index => "Index",
            PageField::StartedDateTime => "Started At",
            PageField::Id => "Id",
            PageField::Title => "Title",
            PageField::PageTimings(f) => f.header(),
            PageField::Comment => "Comment",
        }
    }

    fn align(&self) -> (r: Align) {
        match self {
            PageField::Index => Align::Right,
            PageField::StartedDateTime => Align::Left,
            PageField::Id => Align::Left,
            PageField::Title => Align::Left,
            PageField::PageTimings(f) => f.align(),
            PageField::Comment => Align::Left,
        }
    }

    fn name(&self) -> (r: String) {
        match self {
            PageField::Index => "_index".to_owned(),
            PageField::StartedDateTime => "startedDateTime".to_owned(),
            PageField::Id => "id".to_owned(),
            PageField::Title => "title".to_owned(),
            PageField::PageTimings(f) => prefixed("pageTimings.", f.name()),
            PageField::Comment => "comment".to_owned(),
        }
    }

    fn parse<'a>(field: &'a str) -> (r: Result<Self, ParserError<'a>>) {
        let t = to_chars(field);
        match find_dot(t.as_slice()) {
            Some(d) => {
                let head = field.substring_char(0, d);
                let tail = field.substring_char(d + 1, t.len());
                let offs = byte_offsets(t.as_slice());
                let hb = offs[d];
                proof {
                    lemma_offset_bound(t@, d as int);
                    assert(head@ == field@.take(d as int));
                    assert(tail@ == field@.skip(d + 1));
                }
                if str_eq_ignore_ascii_case(head, "pageTimings") {
                    match PageTimingsField::parse(tail) {
                        Ok(f) => Ok(PageField::PageTimings(f)),
                        Err(e) => Err(ParserError::new(field, hb + 1 + e.index())),
                    }
                } else {
                    Err(ParserError::new(field, 0))
                }
            },
            None => {
                if str_eq_ignore_ascii_case(field, "_index") {
                    Ok(PageField::Index)
                } else if str_eq_ignore_ascii_case(field, "startedDateTime") {
                    Ok(PageField::StartedDateTime)
                } else if str_eq_ignore_ascii_case(field, "id") {
                    Ok(PageField::Id)
                } else if str_eq_ignore_ascii_case(field, "title") {
                    Ok(PageField::Title)
                } else if str_eq_ignore_ascii_case(field, "comment") {
                    Ok(PageField::Comment)
                } else {
                    Err(ParserError::new(field, 0))
                }
            },
        }
    }
}

} // verus!
verus! {

/// Reading the name of a field gives the field back.
pub proof fn initiator_name_round_trip(f: InitiatorField)
    ensures
        InitiatorField::parse_spec(f.name_spec()) == Ok::<InitiatorField, nat>(f),
{
    reveal_strlit("lineNumber");
    reveal_strlit("type");
    reveal_strlit("url");
    match f {
        InitiatorField::Type => {
        },
        InitiatorField::Url => {
        },
        InitiatorField::LineNumber => {
        },
    }
}

/// Reading the name of a field gives the field back (but for HeadersSize, whose name is not the one read).
pub proof fn request_name_round_trip(f: RequestField)
    requires
        f != RequestField::HeadersSize,
    ensures
        RequestField::parse_spec(f.name_spec()) == Ok::<RequestField, nat>(f),
{
    reveal_strlit("bodySize");
    reveal_strlit("comment");
    reveal_strlit("domain");
    reveal_strlit("fragment");
    reveal_strlit("header ize");
    reveal_strlit("headersSize");
    reveal_strlit("host");
    reveal_strlit("httpVersion");
    reveal_strlit("method");
    reveal_strlit("path");
    reveal_strlit("port");
    reveal_strlit("query");
    reveal_strlit("scheme");
    reveal_strlit("url");
    match f {
        RequestField::Method => {
        },
        RequestField::Url => {
        },
        RequestField::Scheme => {
            assert(crate::text::ascii_lower("scheme"@[0]) != crate::text::ascii_lower("method"@[0]));
        },
        RequestField::Host => {
        },
        RequestField::Port => {
            assert(crate::text::ascii_lower("port"@[0]) != crate::text::ascii_lower("host"@[0]));
        },
        RequestField::Domain => {
            assert(crate::text::ascii_lower("domain"@[0]) != crate::text::ascii_lower("method"@[0]));
            assert(crate::text::ascii_lower("domain"@[0]) != crate::text::ascii_lower("scheme"@[0]));
        },
        RequestField::Path => {
            assert(crate::text::ascii_lower("path"@[0]) != crate::text::ascii_lower("host"@[0]));
            assert(crate::text::ascii_lower("path"@[1]) != crate::text::ascii_lower("port"@[1]));
        },
        RequestField::Query => {
        },
        RequestField::Fragment => {
        },
        RequestField::HttpVersion => {
        },
        RequestField::HeadersSize => {},
        RequestField::BodySize => {
            assert(crate::text::ascii_lower("bodySize"@[0]) != crate::text::ascii_lower("fragment"@[0]));
        },
        RequestField::Comment => {
        },
    }
}

/// Reading the name of a field gives the field back.
pub proof fn content_name_round_trip(f: ContentField)
    ensures
        ContentField::parse_spec(f.name_spec()) == Ok::<ContentField, nat>(f),
{
    reveal_strlit("comment");
    reveal_strlit("compression");
    reveal_strlit("encoding");
    reveal_strlit("mimeType");
    reveal_strlit("size");
    reveal_strlit("text");
    match f {
        ContentField::Size => {
        },
        ContentField::Compression => {
        },
        ContentField::MimeType => {
        },
        ContentField::Text => {
            assert(crate::text::ascii_lower("text"@[0]) != crate::text::ascii_lower("size"@[0]));
        },
        ContentField::Encoding => {
            assert(crate::text::ascii_lower("encoding"@[0]) != crate::text::ascii_lower("mimeType"@[0]));
        },
        ContentField::Comment => {
        },
    }
}

/// Reading the name of a field gives the field back.
pub proof fn cache_state_name_round_trip(f: CacheStateField)
    ensures
        CacheStateField::parse_spec(f.name_spec()) == Ok::<CacheStateField, nat>(f),
{
    reveal_strlit("comment");
    reveal_strlit("eTag");
    reveal_strlit("etag");
    reveal_strlit("expires");
    reveal_strlit("hitCount");
    reveal_strlit("lastAccess");
    match f {
        CacheStateField::Expires => {
        },
        CacheStateField::LastAccess => {
        },
        CacheStateField::ETag => {
        },
        CacheStateField::HitCount => {
        },
        CacheStateField::Comment => {
            assert(crate::text::ascii_lower("comment"@[0]) != crate::text::ascii_lower("expires"@[0]));
        },
    }
}

/// Reading the name of a field gives the field back.
pub proof fn timings_name_round_trip(f: TimingsField)
    ensures
        TimingsField::parse_spec(f.name_spec()) == Ok::<TimingsField, nat>(f),
{
    reveal_strlit("_blockedQueueing");
    reveal_strlit("_blocked_queueing");
    reveal_strlit("_workerFetchStart");
    reveal_strlit("_workerReady");
    reveal_strlit("_workerRespondWithSettled");
    reveal_strlit("_workerStart");
    reveal_strlit("blocked");
    reveal_strlit("comment");
    reveal_strlit("connect");
    reveal_strlit("dns");
    reveal_strlit("receive");
    reveal_strlit("send");
    reveal_strlit("ssl");
    reveal_strlit("wait");
    match f {
        TimingsField::Blocked => {
        },
        TimingsField::DNS => {
        },
        TimingsField::Connect => {
            assert(crate::text::ascii_lower("connect"@[0]) != crate::text::ascii_lower("blocked"@[0]));
        },
        TimingsField::Send => {
        },
        TimingsField::Wait => {
            assert(crate::text::ascii_lower("wait"@[0]) != crate::text::ascii_lower("send"@[0]));
        },
        TimingsField::Receive => {
            assert(crate::text::ascii_lower("receive"@[0]) != crate::text::ascii_lower("blocked"@[0]));
            assert(crate::text::ascii_lower("receive"@[0]) != crate::text::ascii_lower("connect"@[0]));
        },
        TimingsField::SSL => {
            assert(crate::text::ascii_lower("ssl"@[0]) != crate::text::ascii_lower("dns"@[0]));
        },
        TimingsField::Comment => {
            assert(crate::text::ascii_lower("comment"@[0]) != crate::text::ascii_lower("blocked"@[0]));
            assert(crate::text::ascii_lower("comment"@[2]) != crate::text::ascii_lower("connect"@[2]));
            assert(crate::text::ascii_lower("comment"@[0]) != crate::text::ascii_lower("receive"@[0]));
        },
        TimingsField::_BlockedQueueing => {
        },
        TimingsField::_WorkerStart => {
        },
        TimingsField::_WorkerReady => {
            assert(crate::text::ascii_lower("_workerReady"@[7]) != crate::text::ascii_lower("_workerStart"@[7]));
        },
        TimingsField::_WorkerFetchStart => {
            assert(crate::text::ascii_lower("_workerFetchStart"@[1]) != crate::text::ascii_lower("_blocked_queueing"@[1]));
        },
        TimingsField::_WorkerRespondWithSettled => {
        },
    }
}

/// Reading the name of a field gives the field back.
pub proof fn page_timings_name_round_trip(f: PageTimingsField)
    ensures
        PageTimingsField::parse_spec(f.name_spec()) == Ok::<PageTimingsField, nat>(f),
{
    reveal_strlit("Comment");
    reveal_strlit("OnContentLoad");
    reveal_strlit("OnLoad");
    reveal_strlit("comment");
    reveal_strlit("onContentLoad");
    reveal_strlit("onLoad");
    match f {
        PageTimingsField::OnContentLoad => {
        },
        PageTimingsField::OnLoad => {
        },
        PageTimingsField::Comment => {
        },
    }
}

} // verus!

verus! {

/// Where `s` has its first `.` at `d`, that is where a dot is found from
/// any `i` up to `d`.
proof fn lemma_first_dot_at(s: Seq<char>, i: int, d: int)
    requires
        0 <= i <= d < s.len(),
        s[d] == '.',
        forall|k: int| i <= k < d ==> s[k] != '.',
    ensures
        first_dot(s, i) == d,
    decreases d - i,
{
    if i < d {
        lemma_first_dot_at(s, i + 1, d);
    }
}

/// A text without dots has none to find.
proof fn lemma_first_dot_none(s: Seq<char>, i: int)
    requires
        0 <= i,
        forall|k: int| i <= k < s.len() ==> s[k] != '.',
    ensures
        first_dot(s, i) == -1,
    decreases s.len() - i,
{
    if i < s.len() {
        lemma_first_dot_none(s, i + 1);
    }
}

/// Reading the name of a field gives the field back (but for EntryField::Response(_), EntryField::Request(RequestField::HeadersSize), whose names are not the ones read).
pub proof fn entry_name_round_trip(f: EntryField)
    requires
        f !is Response && f != EntryField::Request(RequestField::HeadersSize),
    ensures
        EntryField::parse_spec(f.name_spec()) == Ok::<EntryField, nat>(f),
{
    reveal_strlit("_connectionId");
    reveal_strlit("_fromCache");
    reveal_strlit("_index");
    reveal_strlit("_initiator");
    reveal_strlit("_initiator.");
    reveal_strlit("_priority");
    reveal_strlit("_resourceType");
    reveal_strlit("_securityState");
    reveal_strlit("cache");
    reveal_strlit("cache.");
    reveal_strlit("comment");
    reveal_strlit("connection");
    reveal_strlit("request");
    reveal_strlit("request.");
    reveal_strlit("response");
    reveal_strlit("result.");
    reveal_strlit("serverIPAddress");
    reveal_strlit("serverIpAddress");
    reveal_strlit("startedDateTime");
    reveal_strlit("time");
    reveal_strlit("timings");
    reveal_strlit("timings.");
    let s = f.name_spec();
    match f {
        EntryField::Index => {
            lemma_first_dot_none(s, 0);
        },
        EntryField::StartedDateTime => {
            lemma_first_dot_none(s, 0);
        },
        EntryField::Time => {
            lemma_first_dot_none(s, 0);
        },
        EntryField::Request(g) => {
            let gn = g.name_spec();
            assert(s == "request."@ + gn);
            lemma_first_dot_at(s, 0, 7);
            assert(s.take(7) =~= "request"@);
            assert(s.skip(8) =~= gn);
            request_name_round_trip(g);
        },
        EntryField::Response(g) => {
        },
        EntryField::Cache(g) => {
            let gn = g.name_spec();
            assert(s == "cache."@ + gn);
            lemma_first_dot_at(s, 0, 5);
            assert(s.take(5) =~= "cache"@);
            assert(s.skip(6) =~= gn);
            cache_name_round_trip(g);
        },
        EntryField::Timings(g) => {
            let gn = g.name_spec();
            assert(s == "timings."@ + gn);
            lemma_first_dot_at(s, 0, 7);
            assert(s.take(7) =~= "timings"@);
            assert(s.skip(8) =~= gn);
            assert(crate::text::ascii_lower("timings"@[0]) != crate::text::ascii_lower("request"@[0]));
            timings_name_round_trip(g);
        },
        EntryField::ServerIpAddress => {
            lemma_first_dot_none(s, 0);
            assert(crate::text::ascii_lower("serverIPAddress"@[1]) != crate::text::ascii_lower("startedDateTime"@[1]));
        },
        EntryField::Connection => {
            lemma_first_dot_none(s, 0);
        },
        EntryField::Comment => {
            lemma_first_dot_none(s, 0);
        },
        EntryField::_ConnectionId => {
            lemma_first_dot_none(s, 0);
        },
        EntryField::_SecurityState => {
            lemma_first_dot_none(s, 0);
        },
        EntryField::_Initiator(g) => {
            let gn = g.name_spec();
            assert(s == "_initiator."@ + gn);
            lemma_first_dot_at(s, 0, 10);
            assert(s.take(10) =~= "_initiator"@);
            assert(s.skip(11) =~= gn);
            initiator_name_round_trip(g);
        },
        EntryField::_Priority => {
            lemma_first_dot_none(s, 0);
        },
        EntryField::_ResourceType => {
            lemma_first_dot_none(s, 0);
            assert(crate::text::ascii_lower("_resourceType"@[1]) != crate::text::ascii_lower("_connectionId"@[1]));
        },
        EntryField::_FromCache => {
            lemma_first_dot_none(s, 0);
            assert(crate::text::ascii_lower("_fromCache"@[0]) != crate::text::ascii_lower("connection"@[0]));
        },
    }
}

/// Reading the name of a field gives the field back (but for ResponseField::HeadersSize, whose names are not the ones read).
pub proof fn response_name_round_trip(f: ResponseField)
    requires
        f != ResponseField::HeadersSize,
    ensures
        ResponseField::parse_spec(f.name_spec()) == Ok::<ResponseField, nat>(f),
{
    reveal_strlit("_error");
    reveal_strlit("_fetchedViaServiceWorker");
    reveal_strlit("_transferSize");
    reveal_strlit("bodySize");
    reveal_strlit("comment");
    reveal_strlit("content");
    reveal_strlit("content.");
    reveal_strlit("headerSize");
    reveal_strlit("headersSize");
    reveal_strlit("redirectURL");
    reveal_strlit("redirectUrl");
    reveal_strlit("status");
    reveal_strlit("statusText");
    let s = f.name_spec();
    match f {
        ResponseField::Status => {
            lemma_first_dot_none(s, 0);
        },
        ResponseField::StatusText => {
            lemma_first_dot_none(s, 0);
        },
        ResponseField::RedirectUrl => {
            lemma_first_dot_none(s, 0);
        },
        ResponseField::Content(g) => {
            let gn = g.name_spec();
            assert(s == "content."@ + gn);
            lemma_first_dot_at(s, 0, 7);
            assert(s.take(7) =~= "content"@);
            assert(s.skip(8) =~= gn);
            content_name_round_trip(g);
        },
        ResponseField::HeadersSize => {
            lemma_first_dot_none(s, 0);
            assert(crate::text::ascii_lower("headerSize"@[0]) != crate::text::ascii_lower("statusText"@[0]));
        },
        ResponseField::BodySize => {
            lemma_first_dot_none(s, 0);
        },
        ResponseField::Comment => {
            lemma_first_dot_none(s, 0);
        },
        ResponseField::_TransferSize => {
            lemma_first_dot_none(s, 0);
        },
        ResponseField::_Error => {
            lemma_first_dot_none(s, 0);
            assert(crate::text::ascii_lower("_error"@[0]) != crate::text::ascii_lower("status"@[0]));
        },
        ResponseField::_FetchedViaServiceWorker => {
            lemma_first_dot_none(s, 0);
        },
    }
}

/// Reading the name of a field gives the field back.
pub proof fn cache_name_round_trip(f: CacheField)
    ensures
        CacheField::parse_spec(f.name_spec()) == Ok::<CacheField, nat>(f),
{
    reveal_strlit("afterRequest");
    reveal_strlit("afterRequest.");
    reveal_strlit("beforeRequest");
    reveal_strlit("beforeRequest.");
    reveal_strlit("comment");
    let s = f.name_spec();
    match f {
        CacheField::BeforeRequest(g) => {
            let gn = g.name_spec();
            assert(s == "beforeRequest."@ + gn);
            lemma_first_dot_at(s, 0, 13);
            assert(s.take(13) =~= "beforeRequest"@);
            assert(s.skip(14) =~= gn);
            cache_state_name_round_trip(g);
        },
        CacheField::AfterRequest(g) => {
            let gn = g.name_spec();
            assert(s == "afterRequest."@ + gn);
            lemma_first_dot_at(s, 0, 12);
            assert(s.take(12) =~= "afterRequest"@);
            assert(s.skip(13) =~= gn);
            cache_state_name_round_trip(g);
        },
        CacheField::Comment => {
            lemma_first_dot_none(s, 0);
        },
    }
}

/// Reading the name of a field gives the field back.
pub proof fn page_name_round_trip(f: PageField)
    ensures
        PageField::parse_spec(f.name_spec()) == Ok::<PageField, nat>(f),
{
    reveal_strlit("_index");
    reveal_strlit("comment");
    reveal_strlit("id");
    reveal_strlit("pageTimings");
    reveal_strlit("pageTimings.");
    reveal_strlit("startedDateTime");
    reveal_strlit("title");
    let s = f.name_spec();
    match f {
        PageField::Index => {
            lemma_first_dot_none(s, 0);
        },
        PageField::StartedDateTime => {
            lemma_first_dot_none(s, 0);
        },
        PageField::Id => {
            lemma_first_dot_none(s, 0);
        },
        PageField::Title => {
            lemma_first_dot_none(s, 0);
        },
        PageField::PageTimings(g) => {
            let gn = g.name_spec();
            assert(s == "pageTimings."@ + gn);
            lemma_first_dot_at(s, 0, 11);
            assert(s.take(11) =~= "pageTimings"@);
            assert(s.skip(12) =~= gn);
            page_timings_name_round_trip(g);
        },
        PageField::Comment => {
            lemma_first_dot_none(s, 0);
        },
    }
}

// ---------------------------------------------------------------------------
// Sorting by fields
// ---------------------------------------------------------------------------

/// How value `a` stands to value `b` on their sort keys from the `k`th
/// on, each key ranking a value on one field of the order: -1 before, 0
/// level, 1 after.  The first key on which they differ decides, in the
/// direction of its field.
pub open spec fn keys_order(a: Seq<u64>, b: Seq<u64>, dirs: Seq<Direction>, k: nat) -> int
    decreases dirs.len() - k,
{
    if k >= dirs.len() || k >= a.len() || k >= b.len() {
        0
    } else if a[k as int] == b[k as int] {
        keys_order(a, b, dirs, k + 1)
    } else {
        let less = a[k as int] < b[k as int];
        match dirs[k as int] {
            Direction::Ascending => if less { -1 } else { 1 },
            Direction::Descending => if less { 1 } else { -1 },
        }
    }
}

/// The directions of the fields of an order.
pub open spec fn order_directions<F: Field>(order: Seq<Order<F>>) -> Seq<Direction> {
    order.map_values(|o: Order<F>| o.direction)
}

proof fn lemma_keys_order_flip(a: Seq<u64>, b: Seq<u64>, dirs: Seq<Direction>, k: nat)
    ensures
        keys_order(a, b, dirs, k) == -keys_order(b, a, dirs, k),
        -1 <= keys_order(a, b, dirs, k) <= 1,
    decreases dirs.len() - k,
{
    if k < dirs.len() && k < a.len() && k < b.len() && a[k as int] == b[k as int] {
        lemma_keys_order_flip(a, b, dirs, k + 1);
    }
}

proof fn lemma_keys_order_trans(a: Seq<u64>, b: Seq<u64>, c: Seq<u64>, dirs: Seq<Direction>, k: nat)
    requires
        a.len() == dirs.len(),
        b.len() == dirs.len(),
        c.len() == dirs.len(),
        keys_order(a, b, dirs, k) <= 0,
        keys_order(b, c, dirs, k) <= 0,
    ensures
        keys_order(a, c, dirs, k) <= 0,
    decreases dirs.len() - k,
{
    if k < dirs.len() && a[k as int] == b[k as int] && b[k as int] == c[k as int] {
        lemma_keys_order_trans(a, b, c, dirs, k + 1);
    }
}

/// Sorting by several fields compares them in turn: where two values are
/// level on the first `k` fields and differ on field `k`, that field
/// decides, the smaller rank first when ascending and last when
/// descending; values level on every field are level.
pub proof fn fields_compare_in_turn(a: Seq<u64>, b: Seq<u64>, dirs: Seq<Direction>, k: nat)
    requires
        a.len() == dirs.len(),
        b.len() == dirs.len(),
        k <= dirs.len(),
        forall|i: int| 0 <= i < k ==> a[i] == b[i],
    ensures
        k < dirs.len() && a[k as int] != b[k as int] ==> keys_order(a, b, dirs, 0) == (
            if (a[k as int] < b[k as int]) == (dirs[k as int] == Direction::Ascending) { -1int } else { 1int }),
        k == dirs.len() ==> keys_order(a, b, dirs, 0) == 0,
{
    lemma_keys_order_level(a, b, dirs, k, 0);
    if k == dirs.len() {
        assert(keys_order(a, b, dirs, k) == 0);
    }
}

proof fn lemma_keys_order_level(a: Seq<u64>, b: Seq<u64>, dirs: Seq<Direction>, k: nat, m: nat)
    requires
        a.len() == dirs.len(),
        b.len() == dirs.len(),
        m <= k <= dirs.len(),
        forall|i: int| 0 <= i < k ==> a[i] == b[i],
    ensures
        keys_order(a, b, dirs, m) == keys_order(a, b, dirs, k),
    decreases k - m,
{
    if m < k {
        lemma_keys_order_level(a, b, dirs, k, m + 1);
    }
}

/// How value `a` stands to value `b`; see [`keys_order`].
fn keys_order_exec(a: &Vec<u64>, b: &Vec<u64>, dirs: &Vec<Direction>) -> (r: i8)
    ensures
        r == keys_order(a@, b@, dirs@, 0),
{
    let mut k: usize = 0;
    while k < dirs.len() && k < a.len() && k < b.len()
        invariant
            k <= dirs@.len(),
            keys_order(a@, b@, dirs@, 0) == keys_order(a@, b@, dirs@, k as nat),
        decreases dirs.len() - k,
    {
        if a[k] != b[k] {
            let less = a[k] < b[k];
            return match dirs[k] {
                Direction::Ascending => if less { -1 } else { 1 },
                Direction::Descending => if less { 1 } else { -1 },
            };
        }
        k += 1;
    }
    0
}

/// The order in which values come when sorted by the fields of `order`:
/// `keys[v]` ranks value `v` on each field of the order, as the field
/// compares values.  The sort is stable: values level on every field keep
/// their order.  The result lists every value once.
pub fn sort_by_fields<F: Field>(keys: &[Vec<u64>], order: &[Order<F>]) -> (perm: Vec<usize>)
    requires
        forall|v: int| 0 <= v < keys@.len() ==> (#[trigger] keys@[v])@.len() == order@.len(),
    ensures
        perm@.len() == keys@.len(),
        forall|i: int| 0 <= i < perm@.len() ==> (#[trigger] perm@[i]) < keys@.len(),
        forall|i: int, j: int| 0 <= i < j < perm@.len() ==> (#[trigger] perm@[i]) != (#[trigger] perm@[j]),
        forall|i: int, j: int| 0 <= i < j < perm@.len() ==>
            keys_order(keys@[(#[trigger] perm@[i]) as int]@, keys@[(#[trigger] perm@[j]) as int]@, order_directions(order@), 0) <= 0,
        forall|i: int, j: int| 0 <= i < j < perm@.len()
            && keys_order(keys@[(#[trigger] perm@[i]) as int]@, keys@[(#[trigger] perm@[j]) as int]@, order_directions(order@), 0) == 0
            ==> perm@[i] < perm@[j],
{
    let mut dirs: Vec<Direction> = Vec::new();
    let mut o: usize = 0;
    while o < order.len()
        invariant
            o <= order@.len(),
            dirs@ == order_directions(order@).take(o as int),
        decreases order.len() - o,
    {
        dirs.push(order[o].direction);
        assert(order_directions(order@).take(o + 1) =~= order_directions(order@).take(o as int).push(order@[o as int].direction));
        o += 1;
    }
    assert(dirs@ =~= order_directions(order@));
    let ghost ds = dirs@;
    let n = keys.len();
    let mut perm: Vec<usize> = Vec::new();
    let mut i: usize = 0;
    while i < n
        invariant
            n == keys@.len(),
            i <= n,
            ds == dirs@,
            ds.len() == order@.len(),
            forall|v: int| 0 <= v < keys@.len() ==> (#[trigger] keys@[v])@.len() == ds.len(),
            perm@.len() == i,
            forall|a: int| 0 <= a < perm@.len() ==> (#[trigger] perm@[a]) < i,
            forall|a: int, b: int| 0 <= a < b < perm@.len() ==> (#[trigger] perm@[a]) != (#[trigger] perm@[b]),
            forall|a: int, b: int| 0 <= a < b < perm@.len() ==>
                keys_order(keys@[(#[trigger] perm@[a]) as int]@, keys@[(#[trigger] perm@[b]) as int]@, ds, 0) <= 0,
            forall|a: int, b: int| 0 <= a < b < perm@.len()
                && keys_order(keys@[(#[trigger] perm@[a]) as int]@, keys@[(#[trigger] perm@[b]) as int]@, ds, 0) == 0
                ==> perm@[a] < perm@[b],
        decreases n - i,
    {
        let ghost ki = keys@[i as int]@;
        let mut j: usize = i;
        while j > 0 && keys_order_exec(&keys[perm[j - 1]], &keys[i], &dirs) > 0
            invariant
                j <= i,
                i < n,
                n == keys@.len(),
                ds == dirs@,
                perm@.len() == i,
                ki == keys@[i as int]@,
                forall|a: int| 0 <= a < perm@.len() ==> (#[trigger] perm@[a]) < i,
                forall|m: int| j <= m < i ==> keys_order(keys@[(#[trigger] perm@[m]) as int]@, ki, ds, 0) == 1,
            decreases j,
        {
            proof {
                lemma_keys_order_flip(keys@[perm@[j - 1] as int]@, ki, ds, 0);
            }
            j -= 1;
        }
        let ghost old_perm = perm@;
        proof {
            assert forall|a: int, b: int| 0 <= a < b < old_perm.len() + 1 implies
                keys_order(keys@[(#[trigger] old_perm.insert(j as int, i))[a] as int]@,
                    keys@[(#[trigger] old_perm.insert(j as int, i))[b] as int]@, ds, 0) <= 0 by {
                let q = old_perm.insert(j as int, i);
                if b == j {
                    if a < j - 1 {
                        lemma_keys_order_trans(keys@[old_perm[a] as int]@, keys@[old_perm[j - 1] as int]@, ki, ds, 0);
                    }
                } else if a == j {
                    lemma_keys_order_flip(keys@[old_perm[b - 1] as int]@, ki, ds, 0);
                } else {
                    let a0 = if a < j { a } else { a - 1 };
                    let b0 = if b < j { b } else { b - 1 };
                    assert(q[a] == old_perm[a0] && q[b] == old_perm[b0]);
                }
            }
        }
        proof {
            let q = old_perm.insert(j as int, i);
            assert forall|a: int, b: int| 0 <= a < b < q.len()
                && keys_order(keys@[(#[trigger] q[a]) as int]@, keys@[(#[trigger] q[b]) as int]@, ds, 0) == 0
                implies q[a] < q[b] by {
                if b == j {
                    assert(q[a] == old_perm[a]);
                } else if a == j {
                    lemma_keys_order_flip(keys@[old_perm[b - 1] as int]@, ki, ds, 0);
                } else {
                    let a0 = if a < j { a } else { a - 1 };
                    let b0 = if b < j { b } else { b - 1 };
                    assert(q[a] == old_perm[a0] && q[b] == old_perm[b0]);
                }
            }
            assert forall|a: int, b: int| 0 <= a < b < q.len() implies (#[trigger] q[a]) != (#[trigger] q[b]) by {
                if a != j && b != j {
                    let a0 = if a < j { a } else { a - 1 };
                    let b0 = if b < j { b } else { b - 1 };
                    assert(q[a] == old_perm[a0] && q[b] == old_perm[b0]);
                } else if a == j {
                    assert(q[b] == old_perm[b - 1]);
                } else {
                    assert(q[a] == old_perm[a]);
                }
            }
            assert forall|a: int| 0 <= a < q.len() implies (#[trigger] q[a]) < i + 1 by {
                if a < j {
                    assert(q[a] == old_perm[a]);
                } else if a > j {
                    assert(q[a] == old_perm[a - 1]);
                }
            }
        }
        perm.insert(j, i);
        i += 1;
    }
    perm
}

} // verus!
