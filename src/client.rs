//! The decisions of a CalDAV discovery client: which PROPFIND request comes
//! next, and what each reply yields. Sending the requests is left to the caller.
use vstd::prelude::*;
use crate::cache::{find_cal, Cache};
use crate::calendar::{component_bits, component_set_tag, Calendar, CalendarView, SupportedComponents};
use crate::xml::{all_named_from, derefs, find_elem, find_elems, first_named, first_named_from, parse_document, parsed_xml, same_text, XmlNode};

verus! {

/// Whether the text is an absolute URL.
pub uninterp spec fn parses_as_url(s: Seq<char>) -> bool;

/// The URL `base` with its path replaced by `path`, where `base` is one.
pub uninterp spec fn with_path(base: Seq<char>, path: Seq<char>) -> Option<Seq<char>>;

/// Relies on url's `Url::parse`: whether the text is an absolute URL.
#[verifier::external_body]
fn is_url(s: &str) -> (r: bool)
    ensures
        r == parses_as_url(s@),
{
    url::Url::parse(s).is_ok()
}

/// Relies on url's `Url::parse` and `Url::set_path`: resolves a path against
/// the authority of a base URL. The length bound keeps the serialisation
/// within the `u32` offsets that `set_path` unwraps.
#[verifier::external_body]
fn join_path(base: &str, path: &str) -> (r: Option<String>)
    requires
        base@.len() + 3 * path@.len() < 0x1000_0000,
    ensures
        r is Some <==> parses_as_url(base@),
        match r {
            Some(u) => with_path(base@, path@) == Some(u@),
            None => with_path(base@, path@) is None,
        },
{
    match url::Url::parse(base) {
        Ok(mut u) => {
            u.set_path(path);
            Some(u.as_str().to_string())
        },
        Err(_) => None,
    }
}

/// Why discovery failed.
#[derive(Clone, Copy, Debug, PartialEq, Eq, Structural)]
pub enum DiscoveryError {
    /// The base URL given to the client is not a URL.
    InvalidUrl,
    /// A reply was not well formed, or lacked a required element.
    Protocol,
}

/// The URL that `href` stands for, on the server of `base`; `None` where the
/// two cannot be joined.
pub open spec fn resolved(base: Seq<char>, href: Seq<char>) -> Option<Seq<char>> {
    if base.len() + 3 * href.len() < 0x1000_0000 {
        with_path(base, href)
    } else {
        None
    }
}

fn resolve(base: &str, href: &str) -> (r: Option<String>)
    ensures
        match r {
            Some(u) => resolved(base@, href@) == Some(u@),
            None => resolved(base@, href@) is None,
        },
{
    let b: usize = base.unicode_len();
    let h: usize = href.unicode_len();
    if b >= 0x1000_0000 || h >= 0x0556_0000 || b + 3 * h >= 0x1000_0000 {
        return None;
    }
    join_path(base, href)
}

/// The text of the first `href` inside the first `outer` element of a document.
pub open spec fn href_in(doc: XmlNode, outer: Seq<char>) -> Option<Seq<char>> {
    match first_named(doc, outer) {
        Some(o) => match first_named(o, "href"@) {
            Some(h) => Some(h.text@),
            None => None,
        },
        None => None,
    }
}

/// The URL named by the `href` inside the first `outer` element of a reply,
/// resolved against `base`.
pub open spec fn url_in(base: Seq<char>, doc: XmlNode, outer: Seq<char>) -> Option<Seq<char>> {
    match href_in(doc, outer) {
        Some(h) => resolved(base, h),
        None => None,
    }
}

fn find_url(base: &str, doc: &XmlNode, outer: &str) -> (r: Result<String, DiscoveryError>)
    ensures
        match r {
            Ok(u) => url_in(base@, *doc, outer@) == Some(u@),
            Err(e) => url_in(base@, *doc, outer@) is None && e == DiscoveryError::Protocol,
        },
{
    proof {
        reveal_strlit("href");
    }
    let o = match find_elem(doc, outer) {
        Some(o) => o,
        None => return Err(DiscoveryError::Protocol),
    };
    let h = match find_elem(o, "href") {
        Some(h) => h,
        None => return Err(DiscoveryError::Protocol),
    };
    match resolve(base, h.text.as_str()) {
        Some(u) => Ok(u),
        None => Err(DiscoveryError::Protocol),
    }
}

/// The principal URL that a reply to the first request names.
pub fn principal_from_document(base: &str, doc: &XmlNode) -> (r: Result<String, DiscoveryError>)
    ensures
        match r {
            Ok(u) => url_in(base@, *doc, "current-user-principal"@) == Some(u@),
            Err(e) => url_in(base@, *doc, "current-user-principal"@) is None && e == DiscoveryError::Protocol,
        },
{
    find_url(base, doc, "current-user-principal")
}

/// The calendar home set URL that a reply to the second request names.
pub fn home_set_from_document(base: &str, doc: &XmlNode) -> (r: Result<String, DiscoveryError>)
    ensures
        match r {
            Ok(u) => url_in(base@, *doc, "calendar-home-set"@) == Some(u@),
            Err(e) => url_in(base@, *doc, "calendar-home-set"@) is None && e == DiscoveryError::Protocol,
        },
{
    find_url(base, doc, "calendar-home-set")
}

/// Some child of the element is a `calendar` marker.
pub open spec fn marks_calendar(rt: XmlNode) -> bool {
    exists|i: int| 0 <= i < rt.children.len() && (#[trigger] rt.children@[i]).name@ == "calendar"@
}

/// The calendar that one `<response>` of the last reply describes, if it
/// passes the filters: a `resourcetype` with a `calendar` marker, a non-empty
/// `supported-calendar-component-set`, and an `href` that resolves.
pub open spec fn calendar_of(base: Seq<char>, rep: XmlNode) -> Option<CalendarView> {
    match (
        first_named(rep, "resourcetype"@),
        first_named(rep, "supported-calendar-component-set"@),
        first_named(rep, "href"@),
    ) {
        (Some(rt), Some(comps), Some(h)) => if marks_calendar(rt) && comps.children.len() > 0
            && comps.name@ == component_set_tag() && resolved(base, h.text@) is Some {
            Some(
                CalendarView {
                    name: match first_named(rep, "displayname"@) {
                        Some(d) => d.text@,
                        None => "<no name>"@,
                    },
                    id: resolved(base, h.text@)->0,
                    components: SupportedComponents { bits: component_bits(comps.children@) },
                    tasks: Seq::empty(),
                },
            )
        } else {
            None
        },
        _ => None,
    }
}

/// A response is left out of the discovered calendars when it has no
/// `resourcetype`, when that lacks a `calendar` marker, when it has no
/// `supported-calendar-component-set` or an empty one, or when it has no
/// `href`. Otherwise the calendar is kept, with a bit for each `VEVENT` or
/// `VTODO` component and no bit for any other name.
pub proof fn law_discovery_filtering(base: Seq<char>, rep: XmlNode)
    ensures
        first_named(rep, "resourcetype"@) is None ==> calendar_of(base, rep) is None,
        first_named(rep, "resourcetype"@) is Some && !marks_calendar(first_named(rep, "resourcetype"@)->0)
            ==> calendar_of(base, rep) is None,
        first_named(rep, "supported-calendar-component-set"@) is None ==> calendar_of(base, rep) is None,
        first_named(rep, "supported-calendar-component-set"@) is Some && first_named(
            rep,
            "supported-calendar-component-set"@,
        )->0.children.len() == 0 ==> calendar_of(base, rep) is None,
        first_named(rep, "href"@) is None ==> calendar_of(base, rep) is None,
        first_named(rep, "resourcetype"@) is Some && marks_calendar(first_named(rep, "resourcetype"@)->0)
            && first_named(rep, "supported-calendar-component-set"@) is Some
            && first_named(rep, "supported-calendar-component-set"@)->0.children.len() > 0
            && first_named(rep, "href"@) is Some && resolved(base, first_named(rep, "href"@)->0.text@) is Some
            ==> calendar_of(base, rep) is Some && calendar_of(base, rep)->0.components.bits == component_bits(
            first_named(rep, "supported-calendar-component-set"@)->0.children@,
        ),
{
    reveal_strlit("supported-calendar-component-set");
    lemma_first_named_has_name(rep, "supported-calendar-component-set"@);
}

proof fn lemma_first_named_has_name(n: XmlNode, name: Seq<char>)
    ensures
        first_named(n, name) matches Some(x) ==> x.name@ == name,
    decreases n, 0int,
{
    lemma_first_named_from_has_name(n.children@, 0, name);
}

proof fn lemma_first_named_from_has_name(s: Seq<XmlNode>, i: int, name: Seq<char>)
    ensures
        first_named_from(s, i, name) matches Some(x) ==> x.name@ == name,
    decreases s, s.len() - i,
{
    if 0 <= i < s.len() {
        lemma_first_named_has_name(s[i], name);
        lemma_first_named_from_has_name(s, i + 1, name);
    }
}

/// The calendars of a sequence of responses, in order, filtered.
pub open spec fn discovered(base: Seq<char>, reps: Seq<XmlNode>) -> Seq<CalendarView>
    decreases reps.len(),
{
    if reps.len() == 0 {
        Seq::empty()
    } else {
        match calendar_of(base, reps.last()) {
            Some(c) => discovered(base, reps.drop_last()).push(c),
            None => discovered(base, reps.drop_last()),
        }
    }
}

fn has_calendar_marker(rt: &XmlNode) -> (r: bool)
    ensures
        r == marks_calendar(*rt),
{
    let mut i: usize = 0;
    while i < rt.children.len()
        invariant
            i <= rt.children.len(),
            forall|j: int| 0 <= j < i ==> (#[trigger] rt.children@[j]).name@ != "calendar"@,
        decreases rt.children.len() - i,
    {
        if same_text(rt.children[i].name.as_str(), "calendar") {
            return true;
        }
        i = i + 1;
    }
    false
}

/// The calendar that one `<response>` element describes, if it passes the
/// filters.
pub fn calendar_from_response(base: &str, rep: &XmlNode) -> (r: Option<Calendar>)
    ensures
        match r {
            Some(c) => calendar_of(base@, *rep) == Some(c@) && c.wf(),
            None => calendar_of(base@, *rep) is None,
        },
{
    proof {
        reveal_strlit("<no name>");
    }
    let rt = match find_elem(rep, "resourcetype") {
        Some(rt) => rt,
        None => return None,
    };
    if !has_calendar_marker(rt) {
        return None;
    }
    let comps = match find_elem(rep, "supported-calendar-component-set") {
        Some(c) => c,
        None => return None,
    };
    if comps.children.len() == 0 {
        return None;
    }
    let h = match find_elem(rep, "href") {
        Some(h) => h,
        None => return None,
    };
    let url = match resolve(base, h.text.as_str()) {
        Some(u) => u,
        None => return None,
    };
    let components = match SupportedComponents::try_from(comps) {
        Ok(sc) => sc,
        Err(_) => return None,
    };
    let name = match find_elem(rep, "displayname") {
        Some(d) => d.text.clone(),
        None => "<no name>".to_owned(),
    };
    Some(Calendar::new(name, url, components))
}

/// The calendars that a reply to the third request lists, keyed by URL; of
/// two responses with one URL the later one stands.
pub fn calendars_from_document(base: &str, doc: &XmlNode) -> (r: Cache)
    ensures
        r.wf(),
        forall|id: Seq<char>| #[trigger] find_cal(r@, id) == find_cal(
            discovered(base@, all_named_from(doc.children@, 0, "response"@)),
            id,
        ),
{
    proof {
        reveal_strlit("response");
    }
    let reps = find_elems(doc, "response");
    let ghost rs = derefs(reps@);
    let mut out = Cache::new();
    let mut j: usize = 0;
    while j < reps.len()
        invariant
            j <= reps.len(),
            rs == derefs(reps@),
            out.wf(),
            forall|id: Seq<char>| #[trigger] find_cal(out@, id) == find_cal(discovered(base@, rs.take(j as int)), id),
        decreases reps.len() - j,
    {
        let rep = reps[j];
        proof {
            assert(rs[j as int] == *rep);
            assert(rs.take(j as int + 1).drop_last() =~= rs.take(j as int));
        }
        if let Some(c) = calendar_from_response(base, rep) {
            let ghost before = out@;
            let ghost cv = c@;
            let taken = out.take_calendar(c.id().as_str());
            let ghost mid = out@;
            out.add_calendar(c);
            proof {
                assert forall|id: Seq<char>| #[trigger] find_cal(out@, id) == find_cal(discovered(base@, rs.take(j as int + 1)), id) by {
                    crate::cache::lemma_find_cal_push(mid, cv, id);
                    crate::cache::lemma_find_cal_push(discovered(base@, rs.take(j as int)), cv, id);
                }
            }
        }
        j = j + 1;
    }
    proof {
        assert(rs.take(j as int) =~= rs);
    }
    out
}

/// The body of the first request: the current user's principal.
pub open spec fn principal_body() -> Seq<char> {
    "<d:propfind xmlns:d=\"DAV:\"><d:prop><d:current-user-principal /></d:prop></d:propfind>"@
}

/// The body of the second request: the principal's calendar home set.
pub open spec fn home_set_body() -> Seq<char> {
    "<d:propfind xmlns:d=\"DAV:\" xmlns:c=\"urn:ietf:params:xml:ns:caldav\"><d:self/><d:prop><c:calendar-home-set /></d:prop></d:propfind>"@
}

/// The body of the third request: name, type and components of each child.
pub open spec fn calendars_body() -> Seq<char> {
    "<d:propfind xmlns:d=\"DAV:\" xmlns:c=\"urn:ietf:params:xml:ns:caldav\"><d:prop><d:displayname /><d:resourcetype /><c:supported-calendar-component-set /></d:prop></d:propfind>"@
}

/// What taking in a parsed reply does, at each stage of discovery: the
/// first unknown answer is read from the reply (failing with `Protocol` where
/// a required element is missing), and the others are kept.
pub open spec fn handled(before: Client, after: Client, doc: XmlNode, r: Result<(), DiscoveryError>) -> bool {
    &&& (before.principal() is None ==> {
        &&& after.home_set() == before.home_set()
        &&& after.known_calendars() == before.known_calendars()
        &&& match url_in(before.base(), doc, "current-user-principal"@) {
            Some(u) => r is Ok && after.principal() == Some(u),
            None => r == Err::<(), DiscoveryError>(DiscoveryError::Protocol) && after.principal() is None,
        }
    })
    &&& (before.principal() is Some && before.home_set() is None ==> {
        &&& after.principal() == before.principal()
        &&& after.known_calendars() == before.known_calendars()
        &&& match url_in(before.base(), doc, "calendar-home-set"@) {
            Some(u) => r is Ok && after.home_set() == Some(u),
            None => r == Err::<(), DiscoveryError>(DiscoveryError::Protocol) && after.home_set() is None,
        }
    })
    &&& (before.principal() is Some && before.home_set() is Some ==> {
        &&& r is Ok
        &&& after.principal() == before.principal()
        &&& after.home_set() == before.home_set()
        &&& before.known_calendars() is Some ==> after.known_calendars() == before.known_calendars()
        &&& before.known_calendars() is None ==> after.known_calendars() is Some && forall|id: Seq<char>|
            #[trigger] find_cal(after.known_calendars()->0, id) == find_cal(
                discovered(before.base(), all_named_from(doc.children@, 0, "response"@)),
                id,
            )
    })
}

/// A PROPFIND request to send.
pub struct Propfind {
    pub url: String,
    pub body: String,
    pub depth: u32,
}

/// What a client has learnt from the server so far.
struct CachedReplies {
    principal: Option<String>,
    calendar_home_set: Option<String>,
    calendars: Option<Cache>,
}

/// A CalDAV discovery client: it finds the calendars of a server from its
/// URL, asking for the principal, then the calendar home set, then the
/// calendars, and keeps each answer once it has it.
pub struct Client {
    url: String,
    username: String,
    password: String,
    cached_replies: CachedReplies,
}

impl Client {
    pub closed spec fn base(&self) -> Seq<char> {
        self.url@
    }

    pub closed spec fn principal(&self) -> Option<Seq<char>> {
        match self.cached_replies.principal {
            Some(p) => Some(p@),
            None => None,
        }
    }

    pub closed spec fn home_set(&self) -> Option<Seq<char>> {
        match self.cached_replies.calendar_home_set {
            Some(h) => Some(h@),
            None => None,
        }
    }

    pub closed spec fn known_calendars(&self) -> Option<Seq<CalendarView>> {
        match self.cached_replies.calendars {
            Some(c) => Some(c@),
            None => None,
        }
    }

    pub closed spec fn user(&self) -> Seq<char> {
        self.username@
    }

    pub closed spec fn secret(&self) -> Seq<char> {
        self.password@
    }

    pub closed spec fn wf(&self) -> bool {
        match self.cached_replies.calendars {
            Some(c) => c.wf(),
            None => true,
        }
    }

    /// A client for the server at `url`, which knows nothing yet. This does
    /// not connect.
    pub fn new(url: &str, username: String, password: String) -> (r: Result<Client, DiscoveryError>)
        ensures
            match r {
                Ok(c) => parses_as_url(url@) && c.wf() && c.base() == url@ && c.user() == username@
                    && c.secret() == password@ && c.principal() is None
                    && c.home_set() is None && c.known_calendars() is None,
                Err(e) => !parses_as_url(url@) && e == DiscoveryError::InvalidUrl,
            },
    {
        if !is_url(url) {
            return Err(DiscoveryError::InvalidUrl);
        }
        Ok(Client {
            url: url.to_owned(),
            username,
            password,
            cached_replies: CachedReplies { principal: None, calendar_home_set: None, calendars: None },
        })
    }

    pub fn username(&self) -> (r: &String)
        ensures
            r@ == self.user(),
    {
        &self.username
    }

    pub fn password(&self) -> (r: &String)
        ensures
            r@ == self.secret(),
    {
        &self.password
    }

    /// The next request to send; `None` once every answer is known.
    pub fn next_request(&self) -> (r: Option<Propfind>)
        ensures
            match r {
                Some(p) => if self.principal() is None {
                    p.url@ == self.base() && p.depth == 0 && p.body@ == principal_body()
                } else if self.home_set() is None {
                    p.url@ == self.principal()->0 && p.depth == 0 && p.body@ == home_set_body()
                } else {
                    self.known_calendars() is None && p.url@ == self.home_set()->0 && p.depth == 1
                        && p.body@ == calendars_body()
                },
                None => self.principal() is Some && self.home_set() is Some && self.known_calendars() is Some,
            },
    {
        match &self.cached_replies.principal {
            None => {
                return Some(Propfind {
                    url: self.url.clone(),
                    body: "<d:propfind xmlns:d=\"DAV:\"><d:prop><d:current-user-principal /></d:prop></d:propfind>".to_owned(),
                    depth: 0,
                });
            },
            Some(p) => match &self.cached_replies.calendar_home_set {
                None => {
                    return Some(Propfind {
                        url: p.clone(),
                        body: "<d:propfind xmlns:d=\"DAV:\" xmlns:c=\"urn:ietf:params:xml:ns:caldav\"><d:self/><d:prop><c:calendar-home-set /></d:prop></d:propfind>".to_owned(),
                        depth: 0,
                    });
                },
                Some(h) => match &self.cached_replies.calendars {
                    None => Some(Propfind {
                        url: h.clone(),
                        body: "<d:propfind xmlns:d=\"DAV:\" xmlns:c=\"urn:ietf:params:xml:ns:caldav\"><d:prop><d:displayname /><d:resourcetype /><c:supported-calendar-component-set /></d:prop></d:propfind>".to_owned(),
                        depth: 1,
                    }),
                    Some(_) => None,
                },
            },
        }
    }

    /// Takes in a parsed reply to the request that `next_request` gave, and
    /// keeps what it yields. Paths are resolved against the client's URL.
    pub fn handle_document(&mut self, doc: &XmlNode) -> (r: Result<(), DiscoveryError>)
        requires
            old(self).wf(),
        ensures
            final(self).wf(),
            final(self).base() == old(self).base(),
            final(self).user() == old(self).user(),
            final(self).secret() == old(self).secret(),
            handled(*old(self), *final(self), *doc, r),
    {
        if self.cached_replies.principal.is_none() {
            let p = principal_from_document(self.url.as_str(), doc)?;
            self.cached_replies.principal = Some(p);
            return Ok(());
        }
        if self.cached_replies.calendar_home_set.is_none() {
            let h = home_set_from_document(self.url.as_str(), doc)?;
            self.cached_replies.calendar_home_set = Some(h);
            return Ok(());
        }
        if self.cached_replies.calendars.is_none() {
            let cals = calendars_from_document(self.url.as_str(), doc);
            self.cached_replies.calendars = Some(cals);
        }
        Ok(())
    }

    /// Takes in the text of a reply to the request that `next_request` gave.
    /// A reply that is not well-formed XML fails with `Protocol` and changes
    /// nothing.
    pub fn handle_reply(&mut self, text: &str) -> (r: Result<(), DiscoveryError>)
        requires
            old(self).wf(),
        ensures
            final(self).wf(),
            final(self).base() == old(self).base(),
            final(self).user() == old(self).user(),
            final(self).secret() == old(self).secret(),
            parsed_xml(text@) is None ==> r == Err::<(), DiscoveryError>(DiscoveryError::Protocol)
                && final(self).principal() == old(self).principal() && final(self).home_set() == old(self).home_set()
                && final(self).known_calendars() == old(self).known_calendars(),
            parsed_xml(text@) is Some ==> handled(*old(self), *final(self), parsed_xml(text@)->0, r),
    {
        match parse_document(text) {
            Some(doc) => self.handle_document(&doc),
            None => Err(DiscoveryError::Protocol),
        }
    }

    /// The calendars found, once discovery is complete.
    pub fn get_calendars(&self) -> (r: Option<&Cache>)
        requires
            self.wf(),
        ensures
            match r {
                Some(c) => self.known_calendars() == Some(c@) && c.wf(),
                None => self.known_calendars() is None,
            },
    {
        self.cached_replies.calendars.as_ref()
    }

    /// Gives up the client for the calendars it found, once discovery is
    /// complete: they can then stand as the remote side of a `Provider`.
    pub fn into_calendars(self) -> (r: Option<Cache>)
        requires
            self.wf(),
        ensures
            match r {
                Some(c) => self.known_calendars() == Some(c@) && c.wf(),
                None => self.known_calendars() is None,
            },
    {
        self.cached_replies.calendars
    }

    /// The discovered calendar with the given URL.
    pub fn get_calendar(&self, id: &str) -> (r: Option<&Calendar>)
        requires
            self.wf(),
        ensures
            match r {
                Some(c) => self.known_calendars() is Some && find_cal(self.known_calendars()->0, id@) == Some(c@),
                None => self.known_calendars() is None || find_cal(self.known_calendars()->0, id@) is None,
            },
    {
        match &self.cached_replies.calendars {
            Some(cals) => cals.get_calendar(id),
            None => None,
        }
    }
}

} // verus!
