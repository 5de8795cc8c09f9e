//! The values exchanged with the remote service, and the client that decides
//! what one shorten operation does next.

use crate::cache::{
    holds_id, holds_key, law_get_after_set, lookup, spec_row_for, spec_set, unique, BitlinkCache,
    CacheRow, CacheRowView, EntryView,
};
use crate::cli::OutputOrder;
use crate::config::Config;
use crate::dispatch::{DispatchState, Dispatcher};
use crate::error::{Error, ErrorResponse};
use crate::remote::{
    parse_response, spec_classify, spec_parse_response, Body, Endpoint, Parsed, Reply,
    StatusClass, Violation,
};
use crate::weburl::Url;
use vstd::prelude::*;
use vstd::string::StringExecFns;

verus! {

/// The version of the remote interface. It is the first segment of every
/// endpoint's path and the name of the cache that goes with it.
pub const VERSION: &'static str = "v4";

/// What the remote service says of the user to whom the access token
/// belongs.
#[derive(Debug, PartialEq, Eq)]
pub struct User {
    pub is_active: bool,
    pub default_group_guid: String,
}

/// The request to shorten one URL. Its three fields together are the key
/// under which the result is cached.
#[derive(Debug, PartialEq, Eq)]
pub struct Shorten {
    pub long_url: Url,
    pub domain: Option<String>,
    pub group_guid: String,
}

/// A `Shorten` as texts.
pub struct ShortenView {
    pub long_url: Seq<char>,
    pub domain: Option<Seq<char>>,
    pub group_guid: Seq<char>,
}

/// A shortened link.
#[derive(Debug, PartialEq, Eq)]
pub struct Bitlink {
    pub link: Url,
    pub id: String,
    pub long_url: Url,
}

/// A `Bitlink` as texts.
pub struct BitlinkView {
    pub link: Seq<char>,
    pub id: Seq<char>,
    pub long_url: Seq<char>,
}

/// The text of an optional string.
pub open spec fn text_of(value: Option<String>) -> Option<Seq<char>> {
    match value {
        Some(text) => Some(text@),
        None => None,
    }
}

/// A copy of an optional string.
pub fn copy_text(value: &Option<String>) -> (r: Option<String>)
    ensures
        r == *value,
{
    match value {
        Some(text) => Some(text.clone()),
        None => None,
    }
}

impl View for Shorten {
    type V = ShortenView;

    open spec fn view(&self) -> ShortenView {
        ShortenView {
            long_url: self.long_url@,
            domain: text_of(self.domain),
            group_guid: self.group_guid@,
        }
    }
}

impl Clone for Shorten {
    fn clone(&self) -> (r: Self)
        ensures
            r == *self,
    {
        Shorten {
            long_url: self.long_url.clone(),
            domain: copy_text(&self.domain),
            group_guid: self.group_guid.clone(),
        }
    }
}

impl View for Bitlink {
    type V = BitlinkView;

    open spec fn view(&self) -> BitlinkView {
        BitlinkView { link: self.link@, id: self.id@, long_url: self.long_url@ }
    }
}

impl Clone for Bitlink {
    fn clone(&self) -> (r: Self)
        ensures
            r == *self,
    {
        Bitlink { link: self.link.clone(), id: self.id.clone(), long_url: self.long_url.clone() }
    }
}

impl Clone for User {
    fn clone(&self) -> (r: Self)
        ensures
            r == *self,
    {
        User { is_active: self.is_active, default_group_guid: self.default_group_guid.clone() }
    }
}

impl Bitlink {
    /// The line that is printed for this link. In ordered output it is
    /// the short link: the place of the line says which input it belongs
    /// to. In unordered output the long URL follows, behind a tab.
    pub open spec fn spec_output_line(self, ordering: OutputOrder) -> Seq<char> {
        match ordering {
            OutputOrder::Ordered => self.link@,
            OutputOrder::Unordered => self.link@ + "\t"@ + self.long_url@,
        }
    }

    /// The line that is printed for this link.
    pub fn output_line(&self, ordering: OutputOrder) -> (r: String)
        ensures
            r@ == self.spec_output_line(ordering),
    {
        let mut line = self.link.as_string().clone();
        match ordering {
            OutputOrder::Ordered => {},
            OutputOrder::Unordered => {
                line.append("\t");
                line.append(self.long_url.as_str());
            },
        }
        line
    }
}

/// The path of an endpoint: the version, a slash and the endpoint's name.
pub open spec fn api_path(endpoint: Seq<char>) -> Seq<char> {
    VERSION@ + "/"@ + endpoint
}

/// The address of an endpoint of the remote service: `base` with the
/// endpoint's path in place of its own.
pub fn api_url(base: &Url, endpoint: &str) -> (r: Option<Url>)
    ensures
        match r {
            Some(url) => Url::spec_with_path(base@, api_path(endpoint@)) == Some(url@),
            None => Url::spec_with_path(base@, api_path(endpoint@)) is None,
        },
{
    let mut path = String::from_str(VERSION);
    path.append("/");
    path.append(endpoint);
    base.with_path(path.as_str())
}

/// What one shorten operation asks for next, or how it has ended.
#[derive(Debug, PartialEq, Eq)]
pub enum Step {
    /// Ask the remote service for the user, then hand the reply to
    /// `Client::on_user` together with this URL.
    FetchUser { long_url: Url },
    /// Send this request to the remote service, then hand the reply to
    /// `Client::on_link` together with the request.
    CreateLink { request: Shorten },
    /// The operation has ended with this result. `stored` is the row by
    /// which the cache has grown, if it has: it is yet to be written to
    /// disk.
    Finish { result: Result<Bitlink, Error>, stored: Option<CacheRow> },
    /// The remote service broke its contract: the run must end.
    Abort(Violation),
}

/// A `Step` with its requests and links as texts.
pub enum StepView {
    FetchUser { long_url: Seq<char> },
    CreateLink { request: ShortenView },
    Finish { result: Result<BitlinkView, Error>, stored: Option<CacheRowView> },
    Abort(Violation),
}

impl View for Step {
    type V = StepView;

    open spec fn view(&self) -> StepView {
        match *self {
            Step::FetchUser { long_url } => StepView::FetchUser { long_url: long_url@ },
            Step::CreateLink { request } => StepView::CreateLink { request: request@ },
            Step::Finish { result, stored } => StepView::Finish {
                result: match result {
                    Ok(bitlink) => Ok(bitlink@),
                    Err(error) => Err(error),
                },
                stored: match stored {
                    Some(row) => Some(row@),
                    None => None,
                },
            },
            Step::Abort(violation) => StepView::Abort(violation),
        }
    }
}

/// The settings that a shorten operation reads.
pub struct Settings {
    /// The domain to create links under, if one is chosen.
    pub domain: Option<Seq<char>>,
    /// The group to create links under, if one is configured.
    pub group_guid: Option<Seq<char>>,
    /// Whether remote requests are forbidden.
    pub offline: bool,
}

/// The rows of the cache, where there is a cache.
pub open spec fn rows_of(cache: Option<BitlinkCache>) -> Option<Seq<EntryView>> {
    match cache {
        Some(cache) => Some(cache@),
        None => None,
    }
}

/// The end of an operation that leaves the cache as it was.
pub open spec fn finish(result: Result<BitlinkView, Error>) -> StepView {
    StepView::Finish { result, stored: None }
}

/// The request for `long_url` under `group_guid`, with the configured
/// domain.
pub open spec fn spec_request(settings: Settings, long_url: Seq<char>, group_guid: Seq<char>)
    -> ShortenView {
    ShortenView { long_url, domain: settings.domain, group_guid }
}

/// What follows once the request is complete, which is as soon as its
/// group is known: the cache is found by the whole request and by nothing
/// less. A link that the cache holds for it ends the operation: no
/// request for a link is made. Failing that, the request goes to the
/// remote service, unless the client is offline.
pub open spec fn spec_submit(
    settings: Settings,
    rows: Option<Seq<EntryView>>,
    request: ShortenView,
) -> StepView {
    let cached = match rows {
        Some(rows) => lookup(rows, request),
        None => None,
    };
    match cached {
        Some(bitlink) => finish(Ok(bitlink)),
        None => if settings.offline {
            finish(Err(Error::Offline("shorten")))
        } else {
            StepView::CreateLink { request }
        },
    }
}

/// How an operation begins. With a configured group the request is
/// complete at once. Without one the user is asked of the remote service
/// first, unless the client is offline.
pub open spec fn spec_begin(settings: Settings, rows: Option<Seq<EntryView>>, long_url: Seq<char>)
    -> StepView {
    match settings.group_guid {
        Some(group_guid) => spec_submit(
            settings,
            rows,
            spec_request(settings, long_url, group_guid),
        ),
        None => if settings.offline {
            finish(Err(Error::Offline("user")))
        } else {
            StepView::FetchUser { long_url }
        },
    }
}

/// The group that links are created under for this user: the user's
/// default group, provided that the user is active.
pub open spec fn spec_resolve_group(user: User) -> Result<Seq<char>, Error> {
    if user.is_active {
        Ok(user.default_group_guid@)
    } else {
        Err(Error::UnknownGroupGUID("user is inactive"))
    }
}

/// What follows the reply to the question for the user. A failed or
/// rejected request ends the operation, and so does a user who is not
/// active. Otherwise the request is complete, with the user's group.
pub open spec fn spec_on_user(
    settings: Settings,
    rows: Option<Seq<EntryView>>,
    long_url: Seq<char>,
    reply: Reply<User>,
) -> StepView {
    match spec_parse_response(Endpoint::User, reply) {
        Parsed::Value(user) => match spec_resolve_group(user) {
            Ok(group_guid) => spec_submit(
                settings,
                rows,
                spec_request(settings, long_url, group_guid),
            ),
            Err(error) => finish(Err(error)),
        },
        Parsed::Failure(error) => finish(Err(error)),
        Parsed::Violation(violation) => StepView::Abort(violation),
    }
}

/// What follows the reply to a request for a link, and the rows of the
/// cache afterwards. A new link is the result of the operation, and is
/// cached as the answer to the request where there is a cache; whether
/// that insert takes place changes nothing in the result. A failed or
/// rejected request ends the operation and leaves the cache as it was.
pub open spec fn spec_on_link(
    rows: Option<Seq<EntryView>>,
    request: ShortenView,
    reply: Reply<Bitlink>,
) -> (StepView, Option<Seq<EntryView>>) {
    match spec_parse_response(Endpoint::Shorten, reply) {
        Parsed::Value(bitlink) => match rows {
            Some(before) => {
                let (after, inserted) = spec_set(before, request, bitlink@);
                (
                    StepView::Finish {
                        result: Ok(bitlink@),
                        stored: if inserted {
                            Some(spec_row_for(request, bitlink@))
                        } else {
                            None
                        },
                    },
                    Some(after),
                )
            },
            None => (finish(Ok(bitlink@)), None),
        },
        Parsed::Failure(error) => (finish(Err(error)), rows),
        Parsed::Violation(violation) => (StepView::Abort(violation), rows),
    }
}

/// The client of the remote service: it holds the settings of the run and
/// decides, stage by stage, what a shorten operation does. It never
/// changes; the cache is the one thing that operations share and change.
pub struct Client {
    cfg: Config,
}

impl View for Client {
    type V = Settings;

    closed spec fn view(&self) -> Settings {
        Settings {
            domain: text_of(self.cfg.domain),
            group_guid: text_of(self.cfg.default_group_guid),
            offline: self.cfg.offline,
        }
    }
}

impl Client {
    #[verifier::type_invariant]
    spec fn settings_are_valid(self) -> bool {
        self.cfg.wf()
    }

    /// The settings that the client was made with.
    pub closed spec fn config(&self) -> Config {
        self.cfg
    }

    /// A client for a run with these settings.
    pub fn new(cfg: Config) -> (r: Client)
        requires
            cfg.wf(),
        ensures
            r.config() == cfg,
            r@ == (Settings {
                domain: text_of(cfg.domain),
                group_guid: text_of(cfg.default_group_guid),
                offline: cfg.offline,
            }),
    {
        Client { cfg }
    }

    /// The controller for one run over an input: it keeps as many
    /// operations in flight as the settings allow and hands their results
    /// out in the given order. The driver pulls the URLs, runs one shorten
    /// operation for each that is accepted, and hands out what the
    /// controller releases.
    pub fn shorten(&self, ordering: OutputOrder) -> (r: Dispatcher<Result<Bitlink, Error>>)
        ensures
            r@ == DispatchState::<Result<Bitlink, Error>>::init(
                self.config().max_concurrent as nat,
                ordering == OutputOrder::Ordered,
            ),
            r@.wf(),
    {
        proof {
            use_type_invariant(self);
        }
        Dispatcher::new(self.cfg.max_concurrent, ordering)
    }

    /// The settings that the client was made with.
    pub fn cfg(&self) -> (r: &Config)
        ensures
            *r == self.config(),
    {
        &self.cfg
    }

    /// Opens the cache that goes with this client: the one named after
    /// the version of the remote interface, unless the settings give the
    /// empty path as its directory.
    pub fn open_cache(&self) -> (r: Option<BitlinkCache>)
        ensures
            r is Some <==> BitlinkCache::enabled(text_of(self.config().cache_dir)),
            r matches Some(cache) ==> {
                &&& cache@ == Seq::<EntryView>::empty()
                &&& cache.name() == VERSION@
                &&& cache.dir() == text_of(self.config().cache_dir)
            },
    {
        match &self.cfg.cache_dir {
            Some(dir) => BitlinkCache::new(VERSION, Some(dir.as_str())),
            None => BitlinkCache::new(VERSION, None),
        }
    }

    /// The address of an endpoint of the remote service.
    pub fn api_url(&self, endpoint: Endpoint) -> (r: Option<Url>)
        ensures
            match r {
                Some(url) => Url::spec_with_path(
                    self.config().api_url@,
                    api_path(endpoint.spec_name()@),
                ) == Some(url@),
                None => Url::spec_with_path(
                    self.config().api_url@,
                    api_path(endpoint.spec_name()@),
                ) is None,
            },
    {
        api_url(&self.cfg.api_url, endpoint.name())
    }

    /// Looks the complete request up in the cache and, failing that, hands
    /// it on to the remote service.
    fn submit(&self, cache: &Option<BitlinkCache>, request: Shorten) -> (step: Step)
        ensures
            step@ == spec_submit(self@, rows_of(*cache), request@),
    {
        if let Some(cache) = cache {
            if let Some(bitlink) = cache.get(&request) {
                return Step::Finish { result: Ok(bitlink), stored: None };
            }
        }
        if self.cfg.offline {
            return Step::Finish { result: Err(Error::Offline("shorten")), stored: None };
        }
        Step::CreateLink { request }
    }

    /// The request for `long_url` under `group_guid`.
    fn request(&self, long_url: Url, group_guid: String) -> (r: Shorten)
        ensures
            r@ == spec_request(self@, long_url@, group_guid@),
    {
        Shorten { long_url, domain: copy_text(&self.cfg.domain), group_guid }
    }

    /// Begins the operation that shortens `long_url`.
    pub fn begin(&self, cache: &Option<BitlinkCache>, long_url: Url) -> (step: Step)
        ensures
            step@ == spec_begin(self@, rows_of(*cache), long_url@),
    {
        match &self.cfg.default_group_guid {
            Some(group_guid) => {
                let request = self.request(long_url, group_guid.clone());
                self.submit(cache, request)
            },
            None => {
                if self.cfg.offline {
                    Step::Finish { result: Err(Error::Offline("user")), stored: None }
                } else {
                    Step::FetchUser { long_url }
                }
            },
        }
    }

    /// Goes on with the operation that shortens `long_url`, once the
    /// remote service has answered the question for the user.
    pub fn on_user(&self, cache: &Option<BitlinkCache>, long_url: Url, reply: Reply<User>) -> (step:
        Step)
        ensures
            step@ == spec_on_user(self@, rows_of(*cache), long_url@, reply),
    {
        match parse_response(Endpoint::User, reply) {
            Parsed::Value(user) => match resolve_group(user) {
                Ok(group_guid) => {
                    let request = self.request(long_url, group_guid);
                    self.submit(cache, request)
                },
                Err(error) => Step::Finish { result: Err(error), stored: None },
            },
            Parsed::Failure(error) => Step::Finish { result: Err(error), stored: None },
            Parsed::Violation(violation) => Step::Abort(violation),
        }
    }

    /// Ends the operation for `request`, once the remote service has
    /// answered it.
    pub fn on_link(&self, cache: &mut Option<BitlinkCache>, request: Shorten, reply: Reply<Bitlink>)
        -> (step: Step)
        ensures
            (step@, rows_of(*final(cache))) == spec_on_link(rows_of(*old(cache)), request@, reply),
            *old(cache) matches Some(before) ==> *final(cache) matches Some(after) && after.name()
                == before.name() && after.dir() == before.dir(),
    {
        match parse_response(Endpoint::Shorten, reply) {
            Parsed::Value(bitlink) => {
                let stored = match cache {
                    Some(cache) => {
                        if cache.set(&request, &bitlink) {
                            Some(BitlinkCache::row_for(&request, &bitlink))
                        } else {
                            None
                        }
                    },
                    None => None,
                };
                Step::Finish { result: Ok(bitlink), stored }
            },
            Parsed::Failure(error) => Step::Finish { result: Err(error), stored: None },
            Parsed::Violation(violation) => Step::Abort(violation),
        }
    }

    /// Runs one operation from its beginning to its end against replies
    /// that are known beforehand. It returns the step that ends the
    /// operation.
    pub fn replay(&self, cache: &mut Option<BitlinkCache>, long_url: Url, replies: Replies) -> (step:
        Step)
        ensures
            step@ == spec_run(self@, rows_of(*old(cache)), long_url@, replies).0.last(),
            rows_of(*final(cache)) == spec_run(self@, rows_of(*old(cache)), long_url@, replies).1,
            !is_request(step@),
    {
        let Replies { user, link } = replies;
        let first = self.begin(cache, long_url);
        let second = match first {
            Step::FetchUser { long_url } => self.on_user(cache, long_url, user),
            step => step,
        };
        match second {
            Step::CreateLink { request } => self.on_link(cache, request, link),
            step => step,
        }
    }
}

/// The group that links are created under for this user.
pub fn resolve_group(user: User) -> (r: Result<String, Error>)
    ensures
        match r {
            Ok(group_guid) => spec_resolve_group(user) == Ok::<Seq<char>, Error>(group_guid@),
            Err(error) => spec_resolve_group(user) == Err::<Seq<char>, Error>(error),
        },
{
    if user.is_active {
        Ok(user.default_group_guid)
    } else {
        Err(Error::UnknownGroupGUID("user is inactive"))
    }
}

/// What the remote service answers in the course of one operation, to
/// each of the two requests that the operation may make.
pub struct Replies {
    pub user: Reply<User>,
    pub link: Reply<Bitlink>,
}

/// One operation from its beginning to its end: the steps that it takes,
/// the last of which ends it, and the rows of the cache afterwards.
pub open spec fn spec_run(
    settings: Settings,
    rows: Option<Seq<EntryView>>,
    long_url: Seq<char>,
    replies: Replies,
) -> (Seq<StepView>, Option<Seq<EntryView>>) {
    let first = spec_begin(settings, rows, long_url);
    match first {
        StepView::FetchUser { long_url } => {
            let second = spec_on_user(settings, rows, long_url, replies.user);
            match second {
                StepView::CreateLink { request } => {
                    let (third, after) = spec_on_link(rows, request, replies.link);
                    (seq![first, second, third], after)
                },
                _ => (seq![first, second], rows),
            }
        },
        StepView::CreateLink { request } => {
            let (second, after) = spec_on_link(rows, request, replies.link);
            (seq![first, second], after)
        },
        _ => (seq![first], rows),
    }
}

/// Whether a step makes a request to the remote service.
pub open spec fn is_request(step: StepView) -> bool {
    step is FetchUser || step is CreateLink
}

/// Every operation ends: its last step is its end, and each step before
/// that is a request to the remote service. It asks for the user at most
/// once, and only at its beginning.
pub proof fn law_run_ends(
    settings: Settings,
    rows: Option<Seq<EntryView>>,
    long_url: Seq<char>,
    replies: Replies,
)
    ensures
        ({
            let steps = spec_run(settings, rows, long_url, replies).0;
            &&& 1 <= steps.len() <= 3
            &&& !is_request(steps.last())
            &&& forall|i: int| 0 <= i < steps.len() - 1 ==> is_request(#[trigger] steps[i])
            &&& forall|i: int| 1 <= i < steps.len() ==> !((#[trigger] steps[i]) is FetchUser)
        }),
{
}

/// A link that the cache holds for the request is the result, and no
/// request is made to the remote service.
pub proof fn law_cache_hit_makes_no_request(
    settings: Settings,
    rows: Seq<EntryView>,
    long_url: Seq<char>,
    replies: Replies,
)
    requires
        settings.group_guid is Some,
    ensures
        ({
            let request = spec_request(settings, long_url, settings.group_guid->Some_0);
            lookup(rows, request) matches Some(bitlink) ==> spec_run(
                settings,
                Some(rows),
                long_url,
                replies,
            ) == (seq![finish(Ok(bitlink))], Some(rows))
        }),
{
}

/// Without a cache no operation has one to read or to write: there is
/// none afterwards either, and no step names a row to be written.
pub proof fn law_disabled_cache_is_never_used(
    settings: Settings,
    long_url: Seq<char>,
    replies: Replies,
)
    ensures
        ({
            let (steps, after) = spec_run(settings, None, long_url, replies);
            &&& after is None
            &&& forall|i: int|
                0 <= i < steps.len() ==> ((#[trigger] steps[i]) matches StepView::Finish {
                    stored,
                    ..
                } ==> stored is None)
        }),
{
}

/// A client that is offline makes no request: an operation then has one
/// step, its end.
pub proof fn law_offline_makes_no_request(
    settings: Settings,
    rows: Option<Seq<EntryView>>,
    long_url: Seq<char>,
    replies: Replies,
)
    requires
        settings.offline,
    ensures
        spec_run(settings, rows, long_url, replies).0.len() == 1,
        spec_run(settings, rows, long_url, replies).1 == rows,
{
}

/// A rejection by the remote service is the result of the operation,
/// with the reasons that the service gave, and the cache stays as it was.
pub proof fn law_rejection_is_not_cached(
    rows: Option<Seq<EntryView>>,
    request: ShortenView,
    status: u16,
    response: ErrorResponse,
)
    requires
        spec_classify(Endpoint::Shorten, status) == StatusClass::Rejected,
    ensures
        spec_on_link(rows, request, Reply::Response { status, body: Body::Rejection(response) })
            == (finish(Err(Error::Bitly(response))), rows),
{
}

/// Where no group is configured and the user is not active, the
/// operation ends after the question for the user: no link is asked for.
pub proof fn law_inactive_user_ends_the_operation(
    settings: Settings,
    rows: Option<Seq<EntryView>>,
    long_url: Seq<char>,
    replies: Replies,
    status: u16,
    user: User,
)
    requires
        settings.group_guid is None,
        !settings.offline,
        spec_classify(Endpoint::User, status) == StatusClass::Success,
        replies.user == (Reply::Response { status, body: Body::Value(user) }),
        !user.is_active,
    ensures
        spec_run(settings, rows, long_url, replies) == (
            seq![
                StepView::FetchUser { long_url },
                finish(Err(Error::UnknownGroupGUID("user is inactive"))),
            ],
            rows,
        ),
{
}

/// The cache is written on the way back: once an operation has brought a
/// link from the remote service and cached it, the next operation for the
/// same URL has that link from the cache and makes no request.
pub proof fn law_second_run_hits_cache(
    settings: Settings,
    rows: Seq<EntryView>,
    long_url: Seq<char>,
    status: u16,
    bitlink: Bitlink,
    first: Replies,
    second: Replies,
)
    requires
        unique(rows),
        settings.group_guid is Some,
        !settings.offline,
        spec_classify(Endpoint::Shorten, status) == StatusClass::Success,
        first.link == (Reply::Response { status, body: Body::Value(bitlink) }),
        !holds_key(rows, spec_request(settings, long_url, settings.group_guid->Some_0)),
        !holds_id(rows, bitlink@.id),
        bitlink@.long_url == long_url,
    ensures
        ({
            let (steps, after) = spec_run(settings, Some(rows), long_url, first);
            &&& steps.last() matches StepView::Finish { result, .. } && result == Ok::<
                BitlinkView,
                Error,
            >(bitlink@)
            &&& after is Some
            &&& spec_run(settings, after, long_url, second) == (seq![finish(Ok(bitlink@))], after)
        }),
{
    let request = spec_request(settings, long_url, settings.group_guid->Some_0);
    law_get_after_set(rows, request, bitlink@);
}

} // verus!
