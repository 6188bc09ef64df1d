//! Screening: the questions that are put to the ban lists and quotas before
//! a request or a file is let through, and what the answers lead to.

use vstd::prelude::*;
use vstd::string::*;

use crate::http;
use crate::http::{error_page, internal_page, Page, PageKind, Status};
use crate::ip::IpAddr;
use crate::text;
use crate::util;
use crate::util::as_signed;

verus! {

/// A question about a request or a file.
#[derive(Debug)]
pub enum Check {
    /// Is the address banned?
    Ip(IpAddr),
    /// Is the user agent banned?
    UserAgent(String),
    /// How many uploads did the address make in the last day? At the limit
    /// there are too many.
    UploadCount(IpAddr, i64),
    /// How many bytes did the address upload in the last day? At the limit
    /// there are too many.
    ByteCount(IpAddr, i64),
    /// Is the file extension banned?
    Extension(String),
    /// Is the media type banned?
    Mime(String),
    /// Is the file's hash banned?
    Hash(Vec<u8>),
}

/// What a question is about.
pub enum Topic {
    Ip(IpAddr),
    UserAgent(Seq<char>),
    UploadCount(IpAddr, int),
    ByteCount(IpAddr, int),
    Extension(Seq<char>),
    Mime(Seq<char>),
    Hash(Seq<u8>),
}

impl View for Check {
    type V = Topic;

    open spec fn view(&self) -> Topic {
        match *self {
            Check::Ip(ip) => Topic::Ip(ip),
            Check::UserAgent(ua) => Topic::UserAgent(ua@),
            Check::UploadCount(ip, n) => Topic::UploadCount(ip, n as int),
            Check::ByteCount(ip, n) => Topic::ByteCount(ip, n as int),
            Check::Extension(e) => Topic::Extension(e@),
            Check::Mime(m) => Topic::Mime(m@),
            Check::Hash(h) => Topic::Hash(h@),
        }
    }
}

/// What a list of questions is about.
pub open spec fn topics(checks: Seq<Check>) -> Seq<Topic> {
    checks.map_values(|c: Check| c@)
}

/// What came back for a question.
#[derive(Debug, Clone, Copy)]
pub enum Answer {
    Banned(bool),
    Amount(i64),
    Failed,
}

/// What a client is told whose request or file a question stops.
pub open spec fn refusal_message(topic: Topic) -> Seq<char> {
    match topic {
        Topic::Ip(_) => "Your IP is banned from uploading."@,
        Topic::UserAgent(_) => "Your client is banned from uploading."@,
        Topic::UploadCount(..) => "Upload limit reached."@,
        Topic::ByteCount(..) => "Daily byte quota reached."@,
        Topic::Extension(_) => "File type not allowed."@,
        Topic::Mime(_) => "Your upload was rejected."@,
        Topic::Hash(_) => "Your upload was rejected."@,
    }
}

/// The limit that a question goes by.
pub open spec fn limit_of(topic: Topic) -> Option<int> {
    match topic {
        Topic::UploadCount(_, limit) => Some(limit),
        Topic::ByteCount(_, limit) => Some(limit),
        _ => None,
    }
}

/// The status and message that an answer leads to, or nothing where it lets
/// the request through: 403 for what is banned, 429 at a limit, 500 where the
/// question itself failed.
pub open spec fn refusal(topic: Topic, answer: Answer) -> Option<(Status, Seq<char>)> {
    match (limit_of(topic), answer) {
        (None, Answer::Banned(banned)) => if banned {
            Some((Status::Forbidden, refusal_message(topic)))
        } else {
            None
        },
        (Some(limit), Answer::Amount(n)) => if n >= limit {
            Some((Status::TooManyRequests, refusal_message(topic)))
        } else {
            None
        },
        _ => Some((Status::InternalServerError, http::internal_message())),
    }
}

/// The page is the one for a refusal.
pub open spec fn page_for(page: Option<Page>, why: Option<(Status, Seq<char>)>) -> bool {
    match (page, why) {
        (Some(p), Some((status, message))) => http::is_error_page(p, status, message),
        (None, None) => true,
        _ => false,
    }
}

impl Check {
    fn message(&self) -> (r: &'static str)
        ensures
            r@ == refusal_message(self@),
    {
        match self {
            Check::Ip(_) => "Your IP is banned from uploading.",
            Check::UserAgent(_) => "Your client is banned from uploading.",
            Check::UploadCount(_, _) => "Upload limit reached.",
            Check::ByteCount(_, _) => "Daily byte quota reached.",
            Check::Extension(_) => "File type not allowed.",
            Check::Mime(_) => "Your upload was rejected.",
            Check::Hash(_) => "Your upload was rejected.",
        }
    }

    fn limit(&self) -> (r: Option<i64>)
        ensures
            (match r {
                Some(n) => Some(n as int),
                None => None,
            }) == limit_of(self@),
    {
        match self {
            Check::UploadCount(_, limit) => Some(*limit),
            Check::ByteCount(_, limit) => Some(*limit),
            _ => None,
        }
    }

    /// The page that an answer leads to; none where it lets the request
    /// through.
    pub fn judge(&self, answer: Answer) -> (r: Option<Page>)
        ensures
            page_for(r, refusal(self@, answer)),
            (match (*self, answer) {
                (Check::UploadCount(_, limit), Answer::Amount(n)) => r is None <==> n < limit,
                (Check::ByteCount(_, limit), Answer::Amount(n)) => r is None <==> n < limit,
                (Check::UploadCount(..), _) => r is Some,
                (Check::ByteCount(..), _) => r is Some,
                (_, Answer::Banned(banned)) => r is None <==> !banned,
                _ => r is Some,
            }),
            r matches Some(page) ==> page.kind == PageKind::Plain,
            r matches Some(page) ==> page.status == (match (*self, answer) {
                (Check::UploadCount(..), Answer::Amount(_)) => Status::TooManyRequests,
                (Check::ByteCount(..), Answer::Amount(_)) => Status::TooManyRequests,
                (Check::UploadCount(..), _) => Status::InternalServerError,
                (Check::ByteCount(..), _) => Status::InternalServerError,
                (_, Answer::Banned(_)) => Status::Forbidden,
                _ => Status::InternalServerError,
            }),
    {
        match (self.limit(), answer) {
            (None, Answer::Banned(banned)) => if banned {
                Some(error_page(Status::Forbidden, self.message()))
            } else {
                None
            },
            (Some(limit), Answer::Amount(n)) => if n >= limit {
                Some(error_page(Status::TooManyRequests, self.message()))
            } else {
                None
            },
            _ => Some(internal_page()),
        }
    }
}

/// One element, or none.
pub open spec fn at_most_one<T>(x: Option<T>) -> Seq<T> {
    match x {
        Some(v) => seq![v],
        None => Seq::empty(),
    }
}

/// The questions about an upload request, in order: whether its address is
/// banned, whether its client is banned, and the address's two daily quotas.
/// A request without address or user agent is not asked about it, and a quota
/// that is not set is not asked for.
pub open spec fn request_topics(
    ip: Option<IpAddr>,
    user_agent: Option<Seq<char>>,
    max_uploads: Option<u64>,
    max_bytes: Option<u64>,
) -> Seq<Topic> {
    at_most_one(
        match ip {
            Some(ip) => Some(Topic::Ip(ip)),
            None => None,
        },
    ) + at_most_one(
        match user_agent {
            Some(ua) => Some(Topic::UserAgent(ua)),
            None => None,
        },
    ) + at_most_one(
        match (ip, max_uploads) {
            (Some(ip), Some(n)) => Some(Topic::UploadCount(ip, util::wrapped(n))),
            _ => None,
        },
    ) + at_most_one(
        match (ip, max_bytes) {
            (Some(ip), Some(n)) => Some(Topic::ByteCount(ip, util::wrapped(n))),
            _ => None,
        },
    )
}

pub(crate) fn add_check(checks: &mut Vec<Check>, check: Check)
    ensures
        topics(final(checks)@) == topics(old(checks)@).push(check@),
{
    let ghost before = checks@;
    checks.push(check);
    assert(topics(checks@) =~= topics(before).push(check@));
}

/// The questions about an upload request.
pub fn request_checks(
    ip: Option<IpAddr>,
    user_agent: Option<&str>,
    max_uploads: Option<u64>,
    max_bytes: Option<u64>,
) -> (r: Vec<Check>)
    ensures
        topics(r@) == request_topics(ip, text::opt_str_view(user_agent), max_uploads, max_bytes),
{
    let mut checks: Vec<Check> = Vec::new();
    if let Some(ip) = ip {
        add_check(&mut checks, Check::Ip(ip));
    }
    if let Some(ua) = user_agent {
        add_check(&mut checks, Check::UserAgent(ua.to_owned()));
    }
    if let Some(ip) = ip {
        if let Some(n) = max_uploads {
            add_check(&mut checks, Check::UploadCount(ip, as_signed(n)));
        }
        if let Some(n) = max_bytes {
            add_check(&mut checks, Check::ByteCount(ip, as_signed(n)));
        }
    }
    assert(topics(checks@) =~= request_topics(
        ip,
        text::opt_str_view(user_agent),
        max_uploads,
        max_bytes,
    ));
    checks
}

/// Every question was answered, and every answer lets the request through.
pub open spec fn all_clear(asked: Seq<Topic>, answers: Seq<Answer>) -> bool {
    &&& asked.len() == answers.len()
    &&& forall|i: int| 0 <= i < asked.len() ==> (#[trigger] refusal(asked[i], answers[i])) is None
}

/// A run through a list of questions.
pub struct Screening {
    checks: Vec<Check>,
    next: usize,
    given: Ghost<Seq<Answer>>,
}

impl Screening {
    /// What the questions are about.
    pub closed spec fn asked(&self) -> Seq<Topic> {
        topics(self.checks@)
    }

    /// The answers that have let the request through so far.
    pub closed spec fn given(&self) -> Seq<Answer> {
        self.given@
    }

    pub closed spec fn wf(&self) -> bool {
        &&& self.next <= self.checks@.len()
        &&& self.given@.len() == self.next
        &&& all_clear(self.asked().take(self.next as int), self.given@)
    }

    /// A run with no question answered yet.
    pub fn new(checks: Vec<Check>) -> (r: Screening)
        ensures
            r.wf(),
            r.asked() == topics(checks@),
            r.given() == Seq::<Answer>::empty(),
    {
        Screening { checks, next: 0, given: Ghost(Seq::empty()) }
    }

    /// The next question. Where there is none, every question was answered
    /// and every answer lets the request through.
    pub fn ask(&self) -> (r: Option<&Check>)
        requires
            self.wf(),
        ensures
            r matches Some(c) ==> self.given().len() < self.asked().len() && c@
                == self.asked()[self.given().len() as int],
            r is None ==> all_clear(self.asked(), self.given()),
    {
        if self.next < self.checks.len() {
            Some(&self.checks[self.next])
        } else {
            assert(self.asked().take(self.next as int) =~= self.asked());
            None
        }
    }

    /// Takes in the answer to the next question. A page is the end of the
    /// request; without one the run goes on with the question after it.
    pub fn answer(&mut self, answer: Answer) -> (r: Option<Page>)
        requires
            old(self).wf(),
            old(self).given().len() < old(self).asked().len(),
        ensures
            final(self).wf(),
            final(self).asked() == old(self).asked(),
            page_for(r, refusal(old(self).asked()[old(self).given().len() as int], answer)),
            final(self).given() == (if r is None {
                old(self).given().push(answer)
            } else {
                old(self).given()
            }),
    {
        let n: usize = self.checks.len();
        let page = self.checks[self.next].judge(answer);
        if page.is_none() {
            let ghost asked = self.asked();
            let ghost before = self.given@;
            let ghost k = self.next as int;
            assert(k < n);
            self.next = self.next + 1;
            self.given = Ghost(before.push(answer));
            proof {
                assert forall|i: int| 0 <= i < k + 1 implies (#[trigger] refusal(
                    asked.take(k + 1)[i],
                    before.push(answer)[i],
                )) is None by {
                    if i < k {
                        assert(refusal(asked.take(k)[i], before[i]) is None);
                    }
                }
            }
        }
        page
    }
}

// ---------------------------------------------------------------- laws

/// The question is about a daily quota with that limit.
pub open spec fn asks_for_quota(topic: Topic, limit: int) -> bool {
    ||| topic matches Topic::UploadCount(_, n) && n == limit
    ||| topic matches Topic::ByteCount(_, n) && n == limit
}

/// A quota lets a request through exactly where the amount is below the limit,
/// whoever asks; at the limit and above it there are too many requests.
pub proof fn lemma_quota_is_a_bound(topic: Topic, limit: int, n: i64)
    requires
        asks_for_quota(topic, limit),
    ensures
        n < limit ==> refusal(topic, Answer::Amount(n)) is None,
        n >= limit ==> refusal(topic, Answer::Amount(n)) == Some(
            (
                Status::TooManyRequests,
                if topic is UploadCount {
                    "Upload limit reached."@
                } else {
                    "Daily byte quota reached."@
                },
            ),
        ),
{
}

/// Refusals are monotone: where an amount is refused, every greater amount is
/// refused too, and in the same words; where an amount is let through, every
/// smaller one is.
pub proof fn lemma_more_is_never_let_through(topic: Topic, less: i64, more: i64)
    requires
        less <= more,
    ensures
        refusal(topic, Answer::Amount(less)) is Some ==> refusal(topic, Answer::Amount(more))
            == refusal(topic, Answer::Amount(less)),
        refusal(topic, Answer::Amount(more)) is None ==> refusal(topic, Answer::Amount(less))
            is None,
{
}

/// A higher limit never refuses what a lower one lets through.
pub proof fn lemma_higher_limit_refuses_less(ip: IpAddr, low: int, high: int, n: i64)
    requires
        low <= high,
    ensures
        refusal(Topic::UploadCount(ip, low), Answer::Amount(n)) is None ==> refusal(
            Topic::UploadCount(ip, high),
            Answer::Amount(n),
        ) is None,
        refusal(Topic::ByteCount(ip, low), Answer::Amount(n)) is None ==> refusal(
            Topic::ByteCount(ip, high),
            Answer::Amount(n),
        ) is None,
{
}

/// What is banned is forbidden, and what is not is let through, whatever the
/// address, the client, the extension, the media type or the hash.
pub proof fn lemma_banned_is_forbidden(topic: Topic)
    requires
        !(topic is UploadCount),
        !(topic is ByteCount),
    ensures
        refusal(topic, Answer::Banned(false)) is None,
        refusal(topic, Answer::Banned(true)) == Some(
            (
                Status::Forbidden,
                if topic is Ip {
                    "Your IP is banned from uploading."@
                } else if topic is UserAgent {
                    "Your client is banned from uploading."@
                } else if topic is Extension {
                    "File type not allowed."@
                } else {
                    "Your upload was rejected."@
                },
            ),
        ),
{
}

/// Nothing is let through on a question that failed, nor on an answer to
/// another kind of question.
pub proof fn lemma_unanswered_is_refused(topic: Topic, answer: Answer)
    requires
        match answer {
            Answer::Failed => true,
            Answer::Banned(_) => topic is UploadCount || topic is ByteCount,
            Answer::Amount(_) => !(topic is UploadCount) && !(topic is ByteCount),
        },
    ensures
        refusal(topic, answer) == Some((Status::InternalServerError, "Something went wrong."@)),
{
}

/// A page answers a refusal: there is one exactly where something is refused,
/// in plain text, with the status of the refusal and its words at the end.
pub proof fn lemma_page_tells_the_refusal(page: Option<Page>, why: Option<(Status, Seq<char>)>)
    requires
        page_for(page, why),
    ensures
        page is Some <==> why is Some,
        page matches Some(p) ==> {
            &&& p.status == why->Some_0.0
            &&& p.kind == PageKind::Plain
            &&& why->Some_0.1.is_suffix_of(p.body@)
        },
{
    if let Some(p) = page {
        let message = why->Some_0.1;
        let body = p.body@;
        assert(body.subrange(body.len() - message.len(), body.len() as int) =~= message);
    }
}

/// A request or a file passes only where each of its questions was answered,
/// and nothing but them.
pub proof fn lemma_all_are_answered(asked: Seq<Topic>, answers: Seq<Answer>)
    requires
        asked.len() != answers.len(),
    ensures
        !all_clear(asked, answers),
{
}

/// A request or a file that passes its questions is on no ban list and below
/// each limit; and one that is passes them.
pub proof fn lemma_all_clear_means(asked: Seq<Topic>, answers: Seq<Answer>)
    requires
        asked.len() == answers.len(),
    ensures
        all_clear(asked, answers) <==> forall|i: int|
            0 <= i < asked.len() ==> (match #[trigger] asked[i] {
                Topic::UploadCount(_, limit) => answers[i] matches Answer::Amount(n) && n < limit,
                Topic::ByteCount(_, limit) => answers[i] matches Answer::Amount(n) && n < limit,
                _ => answers[i] == Answer::Banned(false),
            }),
{
    if all_clear(asked, answers) {
        assert forall|i: int| 0 <= i < asked.len() implies (match #[trigger] asked[i] {
            Topic::UploadCount(_, limit) => answers[i] matches Answer::Amount(n) && n < limit,
            Topic::ByteCount(_, limit) => answers[i] matches Answer::Amount(n) && n < limit,
            _ => answers[i] == Answer::Banned(false),
        }) by {
            assert(refusal(asked[i], answers[i]) is None);
        }
    } else {
        let i = choose|i: int|
            0 <= i < asked.len() && !((#[trigger] refusal(asked[i], answers[i])) is None);
        assert(refusal(asked[i], answers[i]) is Some);
        let t = asked[i];
    }
}

/// Which questions an upload request is asked: whether its address is banned,
/// whether its client is, and one for each quota that is set, for its address;
/// nothing is asked of an address or a client that is not known.
pub proof fn lemma_request_questions(
    ip: Option<IpAddr>,
    user_agent: Option<Seq<char>>,
    max_uploads: Option<u64>,
    max_bytes: Option<u64>,
    topic: Topic,
)
    ensures
        request_topics(ip, user_agent, max_uploads, max_bytes).contains(topic) <==> (match topic {
            Topic::Ip(a) => ip == Some(a),
            Topic::UserAgent(u) => user_agent == Some(u),
            Topic::UploadCount(a, limit) => ip == Some(a) && max_uploads is Some && limit
                == util::wrapped(max_uploads->Some_0),
            Topic::ByteCount(a, limit) => ip == Some(a) && max_bytes is Some && limit
                == util::wrapped(max_bytes->Some_0),
            _ => false,
        }),
{
    let all = request_topics(ip, user_agent, max_uploads, max_bytes);
    let a: int = if ip is Some {
        1
    } else {
        0
    };
    let b: int = if user_agent is Some {
        1
    } else {
        0
    };
    let c: int = if ip is Some && max_uploads is Some {
        1
    } else {
        0
    };
    if ip is Some {
        assert(all[0] == Topic::Ip(ip->Some_0));
    }
    if user_agent is Some {
        assert(all[a] == Topic::UserAgent(user_agent->Some_0));
    }
    if ip is Some && max_uploads is Some {
        assert(all[a + b] == Topic::UploadCount(
            ip->Some_0,
            util::wrapped(max_uploads->Some_0),
        ));
    }
    if ip is Some && max_bytes is Some {
        assert(all[a + b + c] == Topic::ByteCount(ip->Some_0, util::wrapped(max_bytes->Some_0)));
    }
}

/// No question is asked twice, bans are asked for before quotas, and the
/// address comes first.
pub proof fn lemma_request_order(
    ip: Option<IpAddr>,
    user_agent: Option<Seq<char>>,
    max_uploads: Option<u64>,
    max_bytes: Option<u64>,
    i: int,
    j: int,
)
    requires
        0 <= i < j < request_topics(ip, user_agent, max_uploads, max_bytes).len(),
    ensures
        ({
            let all = request_topics(ip, user_agent, max_uploads, max_bytes);
            &&& !(all[j] is Ip)
            &&& all[j] is UserAgent ==> all[i] is Ip
            &&& all[j] is UploadCount ==> all[i] is Ip || all[i] is UserAgent
            &&& all[j] is ByteCount ==> !(all[i] is ByteCount)
        }),
{
}

/// A question is about what it asks for.
pub proof fn lemma_what_a_question_is_about(checks: Seq<Check>, i: int)
    requires
        0 <= i < checks.len(),
    ensures
        topics(checks).len() == checks.len(),
        (match checks[i] {
            Check::Ip(ip) => topics(checks)[i] == Topic::Ip(ip),
            Check::UserAgent(ua) => topics(checks)[i] == Topic::UserAgent(ua@),
            Check::UploadCount(ip, n) => topics(checks)[i] == Topic::UploadCount(ip, n as int),
            Check::ByteCount(ip, n) => topics(checks)[i] == Topic::ByteCount(ip, n as int),
            Check::Extension(e) => topics(checks)[i] == Topic::Extension(e@),
            Check::Mime(m) => topics(checks)[i] == Topic::Mime(m@),
            Check::Hash(h) => topics(checks)[i] == Topic::Hash(h@),
        }),
{
}

} // verus!
