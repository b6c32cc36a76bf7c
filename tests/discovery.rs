use my_tasks::calendar::{ComponentSetError, SupportedComponents};
use my_tasks::client::{
    calendars_from_document, home_set_from_document, principal_from_document, Client, DiscoveryError,
};
use my_tasks::cache::Cache;
use my_tasks::item::VersionTag;
use my_tasks::provider::Provider;
use my_tasks::xml::{find_elem, parse_document};

const BASE: &str = "https://cal.example.com/remote.php/dav";

const PRINCIPAL_REPLY: &str = r#"<d:multistatus xmlns:d="DAV:">
  <d:response>
    <d:href>/remote.php/dav/</d:href>
    <d:propstat><d:prop>
      <d:current-user-principal><d:href>/remote.php/dav/principals/users/me/</d:href></d:current-user-principal>
    </d:prop></d:propstat>
  </d:response>
</d:multistatus>"#;

const HOMESET_REPLY: &str = r#"<d:multistatus xmlns:d="DAV:" xmlns:c="urn:ietf:params:xml:ns:caldav">
  <d:response>
    <d:href>/remote.php/dav/principals/users/me/</d:href>
    <d:propstat><d:prop>
      <c:calendar-home-set><d:href>/remote.php/dav/calendars/me/</d:href></c:calendar-home-set>
    </d:prop></d:propstat>
  </d:response>
</d:multistatus>"#;

const CALENDARS_REPLY: &str = r#"<d:multistatus xmlns:d="DAV:" xmlns:c="urn:ietf:params:xml:ns:caldav">
  <d:response>
    <d:href>/remote.php/dav/calendars/me/</d:href>
    <d:propstat><d:prop>
      <d:resourcetype><d:collection/><c:calendar/></d:resourcetype>
      <c:supported-calendar-component-set/>
    </d:prop></d:propstat>
  </d:response>
  <d:response>
    <d:href>/remote.php/dav/calendars/me/tasks/</d:href>
    <d:propstat><d:prop>
      <d:displayname>Tasks</d:displayname>
      <d:resourcetype><d:collection/><c:calendar/></d:resourcetype>
      <c:supported-calendar-component-set><c:comp name="VTODO"/><c:comp name="VJOURNAL"/></c:supported-calendar-component-set>
    </d:prop></d:propstat>
  </d:response>
  <d:response>
    <d:href>/remote.php/dav/calendars/me/personal/</d:href>
    <d:propstat><d:prop>
      <d:resourcetype><d:collection/><c:calendar/></d:resourcetype>
      <c:supported-calendar-component-set><c:comp name="VEVENT"/><c:comp name="VTODO"/></c:supported-calendar-component-set>
    </d:prop></d:propstat>
  </d:response>
  <d:response>
    <d:href>/remote.php/dav/calendars/me/inbox/</d:href>
    <d:propstat><d:prop>
      <d:displayname>Inbox</d:displayname>
      <d:resourcetype><d:collection/></d:resourcetype>
      <c:supported-calendar-component-set><c:comp name="VEVENT"/></c:supported-calendar-component-set>
    </d:prop></d:propstat>
  </d:response>
  <d:response>
    <d:href>/remote.php/dav/calendars/me/untyped/</d:href>
    <d:propstat><d:prop>
      <d:displayname>Untyped</d:displayname>
      <c:supported-calendar-component-set><c:comp name="VEVENT"/></c:supported-calendar-component-set>
    </d:prop></d:propstat>
  </d:response>
</d:multistatus>"#;

#[test]
fn principal_is_resolved_against_the_base() {
    let doc = parse_document(PRINCIPAL_REPLY).unwrap();
    assert_eq!(
        principal_from_document(BASE, &doc).unwrap(),
        "https://cal.example.com/remote.php/dav/principals/users/me/"
    );
}

#[test]
fn missing_principal_is_a_protocol_error() {
    let doc = parse_document(HOMESET_REPLY).unwrap();
    assert_eq!(principal_from_document(BASE, &doc), Err(DiscoveryError::Protocol));
}

#[test]
fn home_set_is_found() {
    let doc = parse_document(HOMESET_REPLY).unwrap();
    assert_eq!(
        home_set_from_document(BASE, &doc).unwrap(),
        "https://cal.example.com/remote.php/dav/calendars/me/"
    );
}

#[test]
fn calendars_are_filtered() {
    let doc = parse_document(CALENDARS_REPLY).unwrap();
    let cals = calendars_from_document(BASE, &doc);
    assert_eq!(cals.calendars().len(), 2);
    let tasks = cals.get_calendar("https://cal.example.com/remote.php/dav/calendars/me/tasks/").unwrap();
    assert_eq!(tasks.name(), "Tasks");
    assert_eq!(tasks.supported_components(), SupportedComponents::todo());
    let personal = cals.get_calendar("https://cal.example.com/remote.php/dav/calendars/me/personal/").unwrap();
    assert_eq!(personal.name(), "<no name>");
    assert_eq!(personal.supported_components().bits, 3);
    assert!(cals.get_calendar("https://cal.example.com/remote.php/dav/calendars/me/").is_none());
    assert!(cals.get_calendar("https://cal.example.com/remote.php/dav/calendars/me/inbox/").is_none());
    assert!(cals.get_calendar("https://cal.example.com/remote.php/dav/calendars/me/untyped/").is_none());
}

#[test]
fn component_set_of_the_wrong_element_is_refused() {
    let doc = parse_document(CALENDARS_REPLY).unwrap();
    let rt = find_elem(&doc, "resourcetype").unwrap();
    assert_eq!(SupportedComponents::try_from(rt), Err(ComponentSetError::WrongElement));
    let set = parse_document(
        r#"<c:supported-calendar-component-set xmlns:c="urn:ietf:params:xml:ns:caldav"><c:comp name="VEVENT"/><c:comp/></c:supported-calendar-component-set>"#,
    )
    .unwrap();
    assert_eq!(SupportedComponents::try_from(&set), Ok(SupportedComponents::event()));
}

#[test]
fn malformed_xml_is_not_a_document() {
    assert!(parse_document("<d:multistatus xmlns:d=\"DAV:\">").is_none());
}

#[test]
fn invalid_base_url_is_refused() {
    assert!(matches!(
        Client::new("not a url", "u".to_string(), "p".to_string()),
        Err(DiscoveryError::InvalidUrl)
    ));
}

#[test]
fn discovery_walks_three_stages() {
    let mut client = Client::new(BASE, "me".to_string(), "secret".to_string()).unwrap();
    let first = client.next_request().unwrap();
    assert_eq!(first.url, BASE);
    assert_eq!(first.depth, 0);
    assert!(first.body.contains("current-user-principal"));
    assert_eq!(client.handle_reply("garbage <"), Err(DiscoveryError::Protocol));
    assert_eq!(client.next_request().unwrap().url, BASE);
    client.handle_reply(PRINCIPAL_REPLY).unwrap();

    let second = client.next_request().unwrap();
    assert_eq!(second.url, "https://cal.example.com/remote.php/dav/principals/users/me/");
    assert!(second.body.contains("calendar-home-set"));
    client.handle_reply(HOMESET_REPLY).unwrap();

    let third = client.next_request().unwrap();
    assert_eq!(third.url, "https://cal.example.com/remote.php/dav/calendars/me/");
    assert_eq!(third.depth, 1);
    assert!(client.get_calendars().is_none());
    client.handle_reply(CALENDARS_REPLY).unwrap();

    assert!(client.next_request().is_none());
    assert_eq!(client.get_calendars().unwrap().calendars().len(), 2);
    assert!(client
        .get_calendar("https://cal.example.com/remote.php/dav/calendars/me/tasks/")
        .is_some());
}

#[test]
fn credentials_are_kept() {
    let client = Client::new(BASE, "me".to_string(), "SECRET-REDACTED".to_string()).unwrap();
    assert_eq!(client.username(), "me");
    assert_eq!(client.password(), "SECRET-REDACTED");
}

#[test]
fn malformed_home_set_reply_changes_nothing() {
    let mut client = Client::new(BASE, "me".to_string(), "p".to_string()).unwrap();
    client.handle_reply(PRINCIPAL_REPLY).unwrap();
    assert_eq!(client.handle_reply("<d:multistatus"), Err(DiscoveryError::Protocol));
    let req = client.next_request().unwrap();
    assert_eq!(req.url, "https://cal.example.com/remote.php/dav/principals/users/me/");
    assert!(req.body.contains("calendar-home-set"));
}

#[test]
fn discovered_calendars_serve_as_remote_side() {
    let mut client = Client::new(BASE, "me".to_string(), "p".to_string()).unwrap();
    assert!(Client::new(BASE, "me".to_string(), "p".to_string()).unwrap().into_calendars().is_none());
    client.handle_reply(PRINCIPAL_REPLY).unwrap();
    client.handle_reply(HOMESET_REPLY).unwrap();
    client.handle_reply(CALENDARS_REPLY).unwrap();
    let remote = client.into_calendars().unwrap();
    let mut provider = Provider::new(remote, Cache::new());
    provider.sync(VersionTag { tag: 1 });
    let local = provider.local();
    assert_eq!(local.calendars().len(), 2);
    assert_eq!(
        local
            .get_calendar("https://cal.example.com/remote.php/dav/calendars/me/tasks/")
            .unwrap()
            .name(),
        "Tasks"
    );
}
