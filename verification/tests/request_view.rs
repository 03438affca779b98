use thar::request_view::{append_content_text, content_kind_of, content_text, body_kind_of, BodyKind, request_tabs, request_info_rows, RequestSummary, RequestTab, RequestTabContent, RequestView};
use thar::tabs::{Tab, TabsOutcome};
use thar::widget::{ActionFlags, WidgetId};
use thar::rect::Rect;
use thar::event::{Event, Key};
use thar::schema::{PostData, PostParam, QueryParam};

fn summary() -> RequestSummary {
    RequestSummary {
        method: "GET".to_string(),
        http_version: "HTTP/1.1".to_string(),
        url: "https://example.com/".to_string(),
        server_ip_address: None,
        connection: None,
        pageref: None,
        priority: None,
        security_state: None,
        headers: vec![("Host".to_string(), "example.com".to_string())],
        query_string: vec![],
        cookies: vec![],
        post_data: None,
        post_text_widths: vec![],
        comment: None,
    }
}

fn titles(tabs: &[RequestTab]) -> Vec<(String, char)> {
    tabs.iter().map(|t| (t.title.clone(), t.mnemonic)).collect()
}

fn rows(t: &RequestTab) -> Vec<(String, String)> {
    match &t.content {
        RequestTabContent::Rows(r) => r.clone(),
        _ => panic!("not rows"),
    }
}

#[test]
fn request_view_of_a_plain_get() {
    let tabs = request_tabs(&summary());
    assert_eq!(titles(&tabs), vec![("Info".to_string(), 'I'), ("Request Headers".to_string(), 'H')]);
    assert_eq!(
        rows(&tabs[0]),
        vec![
            ("Method".to_string(), "GET".to_string()),
            ("HTTP Version".to_string(), "HTTP/1.1".to_string()),
            ("URL".to_string(), "https://example.com/".to_string()),
        ]
    );
    assert_eq!(rows(&tabs[1]), vec![("Host".to_string(), "example.com".to_string())]);
}

#[test]
fn info_rows_add_known_facts() {
    let mut s = summary();
    s.server_ip_address = Some("10.0.0.1".to_string());
    s.security_state = Some("Secure".to_string());
    let r = request_info_rows(&s);
    assert_eq!(r.len(), 5);
    assert_eq!(r[3], ("Server IP".to_string(), "10.0.0.1".to_string()));
    assert_eq!(r[4], ("Security State".to_string(), "Secure".to_string()));
}

#[test]
fn request_view_with_every_tab() {
    let mut s = summary();
    s.query_string = vec![QueryParam { name: "q".to_string(), value: "1".to_string(), comment: None }];
    s.cookies = vec![("id".to_string(), "7".to_string())];
    let text = "{\"a\":1}";
    s.post_data = Some(PostData {
        mime_type: Some("application/json; charset=utf-8".to_string()),
        params: vec![PostParam {
            name: "x".to_string(),
            value: None,
            file_name: None,
            content_type: None,
            comment: None,
        }],
        text: Some(text.to_string()),
        comment: None,
    });
    s.post_text_widths = vec![1; text.chars().count()];
    s.comment = Some("note".to_string());
    let tabs = request_tabs(&s);
    assert_eq!(
        titles(&tabs),
        vec![
            ("Info".to_string(), 'I'),
            ("Request Headers".to_string(), 'H'),
            ("Query".to_string(), 'Q'),
            ("Cookies".to_string(), 'K'),
            ("Post Data".to_string(), 'P'),
            ("Request Body".to_string(), 'B'),
            ("Commet".to_string(), 'C'),
        ]
    );
    assert_eq!(rows(&tabs[2]), vec![("q".to_string(), "1".to_string())]);
    assert_eq!(rows(&tabs[4]), vec![("x".to_string(), String::new())]);
    match &tabs[5].content {
        RequestTabContent::Body(t) => {
            assert_eq!(t.width, 7);
            assert!(t.lines[0].len() > 1);
        }
        _ => panic!("not a body"),
    }
    match &tabs[6].content {
        RequestTabContent::Comment(c) => assert_eq!(c, "note"),
        _ => panic!("not a comment"),
    }
}

#[test]
fn posted_text_without_parameters() {
    let mut s = summary();
    s.post_data = Some(PostData { mime_type: None, params: vec![], text: Some("raw".to_string()), comment: None });
    s.post_text_widths = vec![1, 1, 1];
    let tabs = request_tabs(&s);
    assert_eq!(titles(&tabs)[2], ("Request Body".to_string(), 'B'));
    assert_eq!(tabs.len(), 3);
}

#[test]
fn request_view_shows_its_tabs() {
    use_request_view();
}

fn use_request_view() {
    let mut v = RequestView::new(WidgetId(5), WidgetId(6));
    assert_eq!(v.widget_id(), WidgetId(5));
    let r = v.set_draw_rect(&Rect { row: 2, column: 0, width: 40, height: 10 });
    assert_eq!(r, None);
    let tabs = vec![
        Tab { title: "Info".to_string(), title_widths: vec![1; 4], mnemonic: 'I', content: WidgetId(7) },
        Tab { title: "Request Headers".to_string(), title_widths: vec![1; 15], mnemonic: 'H', content: WidgetId(8) },
    ];
    let r = v.set_entry(tabs);
    assert_eq!(r, Rect { row: 3, column: 0, width: 40, height: 9 });
    assert_eq!(v.tabs.formatted_tabs.len(), 2);
    let alt_h = Event::KeyPress { key: Key::Char('h'), ctrl: false, alt: true, shift: false };
    assert_eq!(v.handle_event(&alt_h), TabsOutcome::Handled(ActionFlags::dirty()));
    assert_eq!(v.tabs.selected_tab_id(), Some(WidgetId(8)));
    let r = v.set_draw_rect(&Rect { row: 0, column: 0, width: 20, height: 5 });
    assert_eq!(r, Some((WidgetId(8), Rect { row: 1, column: 0, width: 20, height: 4 })));
}

#[test]
fn content_cells_are_coloured_by_their_type() {
    assert_eq!(content_kind_of(Some("application/ld+json; charset=utf-8")), BodyKind::Json);
    assert_eq!(content_kind_of(Some("text/html")), BodyKind::Sgml);
    assert_eq!(content_kind_of(Some("image/svg+xml")), BodyKind::Sgml);
    assert_eq!(content_kind_of(None), BodyKind::Plain);
    assert_eq!(content_kind_of(Some("text/json+x")), BodyKind::Plain);
    assert_eq!(body_kind_of(Some("text/json+x")), BodyKind::Json);
    let t = content_text("{\"a\":1}", &[1; 7], Some("application/json"));
    assert_eq!(t.width, 7);
    assert!(t.lines[0].len() > 1);
    let p = content_text("{\"a\":1}", &[1; 7], Some("text/plain"));
    assert_eq!(p.lines[0].len(), 1);
}

#[test]
fn content_text_is_appended_to_what_is_there() {
    let mut r = thar::rich_text::RichText::new();
    r.append_plain_text("x\n", &[1, 1]);
    let first = r.lines[0].len();
    assert_eq!(r.lines.len(), 2);
    assert_eq!(r.lines[1].len(), 0);
    append_content_text(&mut r, None, &[], Some("application/json"));
    assert_eq!(r.lines.len(), 2);
    assert_eq!(r.lines[1].len(), 0);
    append_content_text(&mut r, Some("[1]"), &[1; 3], Some("application/json"));
    assert_eq!(r.lines.len(), 2);
    assert_eq!(r.lines[0].len(), first);
    assert!(r.lines[1].len() > 1);
}
