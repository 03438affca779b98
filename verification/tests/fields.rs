use thar::fields::sort_by_fields;
use thar::fields::{
    Field, EntryField, RequestField, ResponseField, ContentField, CacheField, CacheStateField, TimingsField,
    PageField, PageTimingsField, InitiatorField, Order, Direction, get_method_color, get_staus_color,
};
use thar::table::Align;
use thar::color::Color;

#[test]
fn entry_field_parses_nested_names() {
    assert_eq!(EntryField::parse("request.method").ok(), Some(EntryField::Request(RequestField::Method)));
    assert_eq!(EntryField::parse("REQUEST.Method").ok(), Some(EntryField::Request(RequestField::Method)));
    assert_eq!(
        EntryField::parse("response.content.mimeType").ok(),
        Some(EntryField::Response(ResponseField::Content(ContentField::MimeType)))
    );
    assert_eq!(
        EntryField::parse("cache.beforeRequest.hitCount").ok(),
        Some(EntryField::Cache(CacheField::BeforeRequest(CacheStateField::HitCount)))
    );
    assert_eq!(EntryField::parse("timings.dns").ok(), Some(EntryField::Timings(TimingsField::DNS)));
    assert_eq!(EntryField::parse("_initiator.lineNumber").ok(), Some(EntryField::_Initiator(InitiatorField::LineNumber)));
    assert_eq!(EntryField::parse("serverIPAddress").ok(), Some(EntryField::ServerIpAddress));
}

#[test]
fn entry_field_error_offsets() {
    let e = EntryField::parse("bogus").err().unwrap();
    assert_eq!(e.index(), 0);
    assert_eq!(e.input(), "bogus");
    // the inner name is not understood: the offset points after the dot
    let e = EntryField::parse("request.nope").err().unwrap();
    assert_eq!(e.index(), 8);
    let e = EntryField::parse("response.content.nope").err().unwrap();
    assert_eq!(e.index(), 17);
    // an unknown head is reported at the start
    let e = EntryField::parse("nope.method").err().unwrap();
    assert_eq!(e.index(), 0);
    // offsets count bytes
    let e = CacheField::parse("beforeRequest.é").err().unwrap();
    assert_eq!(e.index(), 14);
}

#[test]
fn field_names() {
    assert_eq!(EntryField::Request(RequestField::HttpVersion).name(), "request.httpVersion");
    assert_eq!(EntryField::Response(ResponseField::Status).name(), "result.status");
    assert_eq!(RequestField::HeadersSize.name(), "header ize");
    assert_eq!(ResponseField::HeadersSize.name(), "headerSize");
    assert_eq!(CacheField::AfterRequest(CacheStateField::ETag).name(), "afterRequest.etag");
    assert_eq!(PageField::PageTimings(PageTimingsField::OnLoad).name(), "pageTimings.onLoad");
    assert_eq!(TimingsField::_BlockedQueueing.name(), "_blocked_queueing");
}

#[test]
fn names_read_back() {
    for f in [InitiatorField::Type, InitiatorField::Url, InitiatorField::LineNumber] {
        assert_eq!(InitiatorField::parse(&f.name()).ok(), Some(f));
    }
    for f in [TimingsField::Blocked, TimingsField::SSL, TimingsField::_BlockedQueueing, TimingsField::Comment] {
        assert_eq!(TimingsField::parse(&f.name()).ok(), Some(f));
    }
    for f in [CacheStateField::Expires, CacheStateField::ETag, CacheStateField::Comment] {
        assert_eq!(CacheStateField::parse(&f.name()).ok(), Some(f));
    }
    assert_eq!(TimingsField::parse("_blockedQueueing").ok(), Some(TimingsField::_BlockedQueueing));
    // the name of the request header size is not read back
    assert!(RequestField::parse(&RequestField::HeadersSize.name()).is_err());
}

#[test]
fn headers_and_alignment() {
    assert_eq!(EntryField::Index.header(), "Index");
    assert_eq!(EntryField::Request(RequestField::Url).header(), "URL");
    assert_eq!(CacheField::BeforeRequest(CacheStateField::ETag).header(), "Before Request E-Tag");
    assert_eq!(PageField::PageTimings(PageTimingsField::OnContentLoad).header(), "On Content Load");
    assert_eq!(EntryField::Index.align(), Align::Right);
    assert_eq!(EntryField::Request(RequestField::Port).align(), Align::Right);
    assert_eq!(CacheField::AfterRequest(CacheStateField::HitCount).align(), Align::Right);
    assert_eq!(EntryField::Comment.align(), Align::Left);
}

#[test]
fn column_def_of_a_field() {
    let def = ContentField::MimeType.to_column_def(&[1; 9]);
    assert_eq!(def.align, Align::Left);
    assert_eq!(def.header.width, 9);
    assert_eq!(def.header.lines.len(), 1);
}

#[test]
fn order_parses_direction() {
    let o = Order::<EntryField>::parse("-time").ok().unwrap();
    assert_eq!(o.field, EntryField::Time);
    assert_eq!(o.direction, Direction::Descending);
    assert_eq!(o.name(), "-time");
    let o = Order::<PageField>::parse("title").ok().unwrap();
    assert_eq!(o.field, PageField::Title);
    assert_eq!(o.direction, Direction::Ascending);
    let e = Order::<EntryField>::parse("-request.x").err().unwrap();
    assert_eq!(e.index(), 9);
}

#[test]
fn method_and_status_colours() {
    assert_eq!(get_method_color("get"), Color::from_u32(0x00FF00));
    assert_eq!(get_method_color("DELETE"), Color::from_u32(0xFF2200));
    assert_eq!(get_method_color("OPTIONS"), Color::from_u32(0xAAAAAA));
    assert_eq!(get_staus_color(204), Color::from_u32(0x00FF00));
    assert_eq!(get_staus_color(404), Color::from_u32(0xFFAA00));
    assert_eq!(get_staus_color(99), Color::from_u32(0xEE00EE));
    assert_eq!(get_staus_color(600), Color::from_u32(0xEE00EE));
}

#[test]
fn sort_by_fields_is_stable_and_follows_each_direction() {
    let order = [
        Order { field: EntryField::Index, direction: Direction::Ascending },
        Order { field: EntryField::Time, direction: Direction::Descending },
    ];
    let keys = vec![vec![2, 1], vec![1, 5], vec![2, 0], vec![1, 5]];
    assert_eq!(sort_by_fields(&keys, &order), vec![1, 3, 0, 2]);
    let none: [Order<EntryField>; 0] = [];
    let unranked = vec![Vec::<u64>::new(); 3];
    assert_eq!(sort_by_fields(&unranked, &none), vec![0, 1, 2]);
}
