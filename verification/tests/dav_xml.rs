use rili::integrations::{
    discovery_start, extract_calendar_data, read_pieces, XmlPiece, next_discovery_action, parse_dav_discovery, resolve_dav_href,
    DavDiscovery, DiscoveryAction, DiscoveryStage,
};

#[test]
fn extracts_namespaced_and_cdata_calendar_payloads() {
    let xml = [
        "<?xml version=\"1.0\"?><d:multistatus xmlns:d=\"DAV:\" ",
        "xmlns:c=\"urn:ietf:params:xml:ns:caldav\"><d:response><d:propstat>",
        "<d:prop><c:calendar-data>BEGIN:VCALENDAR&#13;&#10;BEGIN:VEVENT&#13;&#10;",
        "UID:one&#13;&#10;DTSTART:20260905T090000&#13;&#10;SUMMARY:周会&#13;&#10;",
        "END:VEVENT&#13;&#10;END:VCALENDAR</c:calendar-data></d:prop>",
        "</d:propstat></d:response><d:response><d:propstat><d:prop>",
        "<c:calendar-data><![CDATA[BEGIN:VCALENDAR\r\nEND:VCALENDAR]]>",
        "</c:calendar-data></d:prop></d:propstat></d:response></d:multistatus>",
    ]
    .concat();
    let calendars = extract_calendar_data(&xml).unwrap();
    assert_eq!(calendars.len(), 2);
    assert!(calendars[0].contains("UID:one\r\n"));
    assert!(calendars[1].contains("BEGIN:VCALENDAR"));
}

#[test]
fn discovers_principal_home_and_calendar_collection() {
    let principal = parse_dav_discovery(
        r#"<d:multistatus xmlns:d="DAV:" xmlns:c="urn:ietf:params:xml:ns:caldav">
            <d:response><d:href>/dav/user/</d:href><d:propstat><d:prop>
            <d:current-user-principal><d:href>/dav/user/</d:href></d:current-user-principal>
            <c:calendar-home-set><d:href>/dav/user/calendars/</d:href></c:calendar-home-set>
            </d:prop></d:propstat></d:response></d:multistatus>"#,
    )
    .unwrap();
    assert_eq!(principal.principal.as_deref(), Some("/dav/user/"));
    assert_eq!(
        principal.calendar_home.as_deref(),
        Some("/dav/user/calendars/")
    );

    let calendars = parse_dav_discovery(
        r#"<d:multistatus xmlns:d="DAV:" xmlns:c="urn:ietf:params:xml:ns:caldav">
            <d:response><d:href>/dav/user/calendars/meetings/</d:href><d:propstat><d:prop>
            <d:resourcetype><d:collection/><c:calendar/></d:resourcetype>
            </d:prop></d:propstat></d:response></d:multistatus>"#,
    )
    .unwrap();
    assert_eq!(calendars.calendars, vec!["/dav/user/calendars/meetings/"]);
    assert_eq!(
        resolve_dav_href("https://calendar.example/dav/", &calendars.calendars[0]).unwrap(),
        "https://calendar.example/dav/user/calendars/meetings/"
    );
}

#[test]
fn calendar_data_outside_responses_is_ignored_and_bad_xml_fails() {
    let none = extract_calendar_data("<d:multistatus xmlns:d=\"DAV:\"></d:multistatus>").unwrap();
    assert!(none.is_empty());
    assert!(extract_calendar_data("<a><b></a>").is_err());
}

#[test]
fn discovery_of_plain_collection_lists_no_calendar() {
    let d = parse_dav_discovery(
        r#"<d:multistatus xmlns:d="DAV:"><d:response><d:href>/dav/other/</d:href>
        <d:propstat><d:prop><d:resourcetype><d:collection/></d:resourcetype></d:prop></d:propstat>
        </d:response></d:multistatus>"#,
    )
    .unwrap();
    assert!(d.calendars.is_empty());
    assert_eq!(d.principal, None);
    assert_eq!(d.calendar_home, None);
}

fn answer(principal: Option<&str>, home: Option<&str>, calendars: &[&str]) -> DavDiscovery {
    DavDiscovery {
        principal: principal.map(|s| s.to_string()),
        calendar_home: home.map(|s| s.to_string()),
        calendars: calendars.iter().map(|s| s.to_string()).collect(),
    }
}

#[test]
fn discovery_starts_at_dingtalk_user_collection_or_the_server() {
    assert_eq!(
        discovery_start("https://calendar.dingtalk.com/dav", "u_example").unwrap(),
        "https://calendar.dingtalk.com/dav/users/u_example/"
    );
    assert_eq!(
        discovery_start("https://calendar.example/dav/", "me").unwrap(),
        "https://calendar.example/dav/"
    );
    assert!(discovery_start("not a url", "me").is_err());
}

#[test]
fn discovery_follows_principal_then_home() {
    let base = "https://calendar.example/dav/";
    match next_discovery_action(DiscoveryStage::Root, base, &answer(Some("/dav/user/"), None, &[])).unwrap() {
        DiscoveryAction::Ask { stage, url, depth } => {
            assert_eq!(stage, DiscoveryStage::Principal);
            assert_eq!(url, "https://calendar.example/dav/user/");
            assert_eq!(depth, 0);
        }
        other => panic!("unexpected {other:?}"),
    }
    let principal = "https://calendar.example/dav/user/";
    match next_discovery_action(DiscoveryStage::Principal, principal, &answer(None, Some("calendars/"), &[])).unwrap() {
        DiscoveryAction::Ask { stage, url, depth } => {
            assert_eq!(stage, DiscoveryStage::Home);
            assert_eq!(url, "https://calendar.example/dav/user/calendars/");
            assert_eq!(depth, 1);
        }
        other => panic!("unexpected {other:?}"),
    }
    let home = "https://calendar.example/dav/user/calendars/";
    match next_discovery_action(DiscoveryStage::Home, home, &answer(None, None, &["/dav/user/calendars/a/", "b/"])).unwrap() {
        DiscoveryAction::Calendars(v) => assert_eq!(
            v,
            vec![
                "https://calendar.example/dav/user/calendars/a/".to_string(),
                "https://calendar.example/dav/user/calendars/b/".to_string()
            ]
        ),
        other => panic!("unexpected {other:?}"),
    }
}

#[test]
fn discovery_failures_name_what_is_missing() {
    let base = "https://calendar.example/dav/";
    assert_eq!(
        next_discovery_action(DiscoveryStage::Root, base, &answer(None, None, &[])).unwrap_err(),
        "服务器未返回 CalDAV 用户或日历地址"
    );
    assert_eq!(
        next_discovery_action(DiscoveryStage::Principal, base, &answer(Some("/x/"), None, &[])).unwrap_err(),
        "服务器未返回 CalDAV 日历主目录"
    );
    assert_eq!(
        next_discovery_action(DiscoveryStage::Home, base, &answer(None, None, &[])).unwrap_err(),
        "账号中未发现可同步的 CalDAV 日历"
    );
    match next_discovery_action(DiscoveryStage::Root, base, &answer(None, Some("/home/"), &["/cal/"])).unwrap() {
        DiscoveryAction::Calendars(v) => assert_eq!(v, vec!["https://calendar.example/cal/".to_string()]),
        other => panic!("unexpected {other:?}"),
    }
}

#[test]
fn xml_events_keep_order_escapes_and_errors() {
    let pieces = read_pieces("<a:x>1 &lt; 2</a:x><y/>", false).unwrap();
    assert_eq!(pieces.len(), 7);
    assert!(matches!(&pieces[0], XmlPiece::Start(n) if n == "x"));
    assert!(matches!(&pieces[1], XmlPiece::Text(Ok(t)) if t == "1 "));
    assert!(matches!(&pieces[2], XmlPiece::Reference(Ok(t)) if t == "<"));
    assert!(matches!(&pieces[3], XmlPiece::Text(Ok(t)) if t == " 2"));
    assert!(matches!(&pieces[4], XmlPiece::End(n) if n == "x"));
    assert!(matches!(&pieces[5], XmlPiece::Empty(n) if n == "y"));
    assert!(matches!(&pieces[6], XmlPiece::Eof));
    assert!(read_pieces("<a></b>", false).is_err());
    let found = extract_calendar_data("<c:calendar-data>A &amp; B</c:calendar-data><c:calendar-data> </c:calendar-data>").unwrap();
    assert_eq!(found, vec!["A & B".to_string()]);
    assert!(extract_calendar_data("<c:calendar-data>&unknown;</c:calendar-data>").is_err());
}
