//! The redirect-following half of session discovery.
//!
//! Discovery issues an authenticated GET against the well-known URI and
//! follows redirects by hand, presenting the same credentials on every hop
//! (the provider expects them at the final URL). The network call itself is
//! the driver's job; this module is the decision core: a state
//! ([`Discovery`]) holding the current URL and the remaining hop budget, and
//! a step function ([`Discovery::step`]) saying exactly what each server
//! answer means. Its whole behaviour is the spec function [`step_model`].

use vstd::prelude::*;
use crate::error::{JmapError, JmapErrorView};
use crate::json::dec_digits;
use crate::url::resolve_spec;

verus! {

broadcast use vstd::seq::group_seq_axioms;

/// How many GET attempts discovery may spend in all.
pub const MAX_HOPS: u8 = 5;

/// One HTTP answer, reduced to what discovery reads.
pub struct HttpReply {
    /// The status code.
    pub status: u16,
    /// The `Location` header, if the server sent one.
    pub location: Option<String>,
    /// The response body.
    pub body: String,
}

/// The mathematical value of an [`HttpReply`].
pub struct ReplyView {
    pub status: u16,
    pub location: Option<Seq<char>>,
    pub body: Seq<char>,
}

impl View for HttpReply {
    type V = ReplyView;

    open spec fn view(&self) -> ReplyView {
        ReplyView {
            status: self.status,
            location: match self.location {
                Some(ref l) => Some(l@),
                None => None,
            },
            body: self.body@,
        }
    }
}

/// What one GET attempt came back with.
pub enum FetchOutcome {
    /// The server answered.
    Reply(HttpReply),
    /// The connection itself failed; the text names the cause.
    Transport(String),
}

/// The mathematical value of a [`FetchOutcome`].
pub enum OutcomeView {
    Reply(ReplyView),
    Transport(Seq<char>),
}

impl View for FetchOutcome {
    type V = OutcomeView;

    open spec fn view(&self) -> OutcomeView {
        match self {
            FetchOutcome::Reply(r) => OutcomeView::Reply(r@),
            FetchOutcome::Transport(e) => OutcomeView::Transport(e@),
        }
    }
}

/// The state of an unfinished discovery: where to GET next, and how many
/// attempts are still allowed (the attempt for `current_url` included).
pub struct Discovery {
    current_url: String,
    attempts_left: u8,
}

/// The mathematical value of a [`Discovery`].
pub struct DiscoveryView {
    pub current_url: Seq<char>,
    pub attempts_left: u8,
}

impl View for Discovery {
    type V = DiscoveryView;

    closed spec fn view(&self) -> DiscoveryView {
        DiscoveryView { current_url: self.current_url@, attempts_left: self.attempts_left }
    }
}

/// What one step of discovery decided.
pub enum DiscoveryStep {
    /// Follow a redirect: GET the state's URL next.
    Redirected(Discovery),
    /// A success body was received; discovery is over.
    Success(String),
    /// Discovery failed; no further request may be made.
    Failed(JmapError),
}

/// The mathematical value of a [`DiscoveryStep`].
pub enum StepView {
    Redirected(DiscoveryView),
    Success(Seq<char>),
    Failed(JmapErrorView),
}

impl View for DiscoveryStep {
    type V = StepView;

    open spec fn view(&self) -> StepView {
        match self {
            DiscoveryStep::Redirected(d) => StepView::Redirected(d@),
            DiscoveryStep::Success(b) => StepView::Success(b@),
            DiscoveryStep::Failed(e) => StepView::Failed(e@),
        }
    }
}

/// The error text for a success status with an empty body.
pub open spec fn empty_body_text(status: u16) -> Seq<char> {
    "Server returned empty response (status "@ + dec_digits(status as nat) + ")"@
}

/// The error text for a redirect status without a `Location` header.
pub open spec fn missing_location_text(status: u16) -> Seq<char> {
    "Redirect "@ + dec_digits(status as nat) + " without Location header"@
}

/// The error text for any other failure status, carrying at most 200
/// characters of the response body.
pub open spec fn http_status_text(status: u16, body: Seq<char>) -> Seq<char> {
    "HTTP "@ + dec_digits(status as nat) + " error: "@ + (if body.len() == 0 {
        "(empty response)"@
    } else if body.len() <= 200 {
        body
    } else {
        body.take(200)
    })
}

/// What one discovery step decides, in full:
/// - a transport failure fails with its cause;
/// - a success status with a body succeeds, with an empty body it fails;
/// - a redirect with a `Location` continues at the resolved URL while the
///   hop budget lasts, and fails with "Too many redirects" on the last hop;
/// - a redirect without a `Location` fails;
/// - 401 fails with the authentication variant;
/// - any other status fails with the status and a truncated body excerpt.
pub open spec fn step_model(st: DiscoveryView, out: OutcomeView) -> StepView {
    match out {
        OutcomeView::Transport(cause) => StepView::Failed(JmapErrorView::Http(cause)),
        OutcomeView::Reply(rep) => {
            if 200 <= rep.status < 300 {
                if rep.body.len() == 0 {
                    StepView::Failed(JmapErrorView::Http(empty_body_text(rep.status)))
                } else {
                    StepView::Success(rep.body)
                }
            } else if 300 <= rep.status < 400 {
                match rep.location {
                    Some(l) => if st.attempts_left > 1 {
                        StepView::Redirected(
                            DiscoveryView {
                                current_url: resolve_spec(st.current_url, l),
                                attempts_left: (st.attempts_left - 1) as u8,
                            },
                        )
                    } else {
                        StepView::Failed(JmapErrorView::Http("Too many redirects"@))
                    },
                    None => StepView::Failed(
                        JmapErrorView::Http(missing_location_text(rep.status)),
                    ),
                }
            } else if rep.status == 401 {
                StepView::Failed(JmapErrorView::AuthenticationFailed)
            } else {
                StepView::Failed(JmapErrorView::Http(http_status_text(rep.status, rep.body)))
            }
        },
    }
}

impl Discovery {
    /// Whether this state can still issue a request.
    pub open spec fn wf(&self) -> bool {
        1 <= self@.attempts_left <= MAX_HOPS
    }

    /// Discovery begins at the well-known URL with the full hop budget.
    pub fn begin(well_known_url: &str) -> (r: Discovery)
        ensures
            r@.current_url == well_known_url@,
            r@.attempts_left == MAX_HOPS,
            r.wf(),
    {
        Discovery { current_url: well_known_url.to_owned(), attempts_left: MAX_HOPS }
    }

    /// The URL the driver must GET next, with the same authentication
    /// header as every hop before it.
    pub fn next_url(&self) -> (r: &str)
        ensures
            r@ == self@.current_url,
    {
        self.current_url.as_str()
    }

    /// Reads one server answer and decides how discovery goes on.
    pub fn step(self, outcome: FetchOutcome) -> (r: DiscoveryStep)
        requires
            self.wf(),
        ensures
            r@ == step_model(self@, outcome@),
            r matches DiscoveryStep::Redirected(d) ==> d.wf(),
    {
        match outcome {
            FetchOutcome::Transport(cause) => DiscoveryStep::Failed(JmapError::Http(cause)),
            FetchOutcome::Reply(rep) => {
                if 200 <= rep.status && rep.status < 300 {
                    if rep.body.unicode_len() == 0 {
                        let mut m = "Server returned empty response (status ".to_owned();
                        crate::json::write_u64_dec(rep.status as u64, &mut m);
                        m.append(")");
                        proof {
                            assert(m@ =~= empty_body_text(rep.status));
                        }
                        DiscoveryStep::Failed(JmapError::Http(m))
                    } else {
                        DiscoveryStep::Success(rep.body)
                    }
                } else if 300 <= rep.status && rep.status < 400 {
                    match rep.location {
                        Some(l) => {
                            if self.attempts_left > 1 {
                                let next = crate::url::resolve_redirect(
                                    self.current_url.as_str(),
                                    l.as_str(),
                                );
                                DiscoveryStep::Redirected(
                                    Discovery {
                                        current_url: next,
                                        attempts_left: self.attempts_left - 1,
                                    },
                                )
                            } else {
                                DiscoveryStep::Failed(
                                    JmapError::Http("Too many redirects".to_owned()),
                                )
                            }
                        },
                        None => {
                            let mut m = "Redirect ".to_owned();
                            crate::json::write_u64_dec(rep.status as u64, &mut m);
                            m.append(" without Location header");
                            proof {
                                assert(m@ =~= missing_location_text(rep.status));
                            }
                            DiscoveryStep::Failed(JmapError::Http(m))
                        },
                    }
                } else if rep.status == 401 {
                    DiscoveryStep::Failed(JmapError::AuthenticationFailed)
                } else {
                    let mut m = "HTTP ".to_owned();
                    crate::json::write_u64_dec(rep.status as u64, &mut m);
                    m.append(" error: ");
                    if rep.body.unicode_len() == 0 {
                        m.append("(empty response)");
                    } else {
                        let excerpt = crate::text::truncate_str(rep.body.as_str(), 200);
                        m.append(excerpt.as_str());
                        proof {
                            if rep.body@.len() <= 200 {
                                assert(rep.body@.take(rep.body@.len() as int) =~= rep.body@);
                            }
                        }
                    }
                    proof {
                        assert(m@ =~= http_status_text(rep.status, rep.body@));
                    }
                    DiscoveryStep::Failed(JmapError::Http(m))
                }
            },
        }
    }
}

/// Where a run of discovery ends after reading the given answers in order:
/// it steps while the server keeps it going and stops at the first success
/// or failure, leaving any later answers unread.
pub open spec fn run_model(st: DiscoveryView, outs: Seq<OutcomeView>) -> StepView
    decreases outs.len(),
{
    if outs.len() == 0 {
        StepView::Redirected(st)
    } else {
        match step_model(st, outs[0]) {
            StepView::Redirected(st2) => run_model(st2, outs.drop_first()),
            r => r,
        }
    }
}

/// Whether an answer is a redirect that carries a `Location` header.
pub open spec fn is_located_redirect(out: OutcomeView) -> bool {
    out matches OutcomeView::Reply(rep) && 300 <= rep.status < 400 && rep.location is Some
}

/// Against a server that answers nothing but redirects, discovery spends its
/// whole hop budget and then fails with "Too many redirects": with fewer
/// answers than the budget it is still following, and with exactly as many
/// it has failed.
pub proof fn lemma_redirects_exhaust_budget(st: DiscoveryView, outs: Seq<OutcomeView>)
    requires
        1 <= st.attempts_left,
        outs.len() <= st.attempts_left,
        forall|i: int| 0 <= i < outs.len() ==> is_located_redirect(#[trigger] outs[i]),
    ensures
        outs.len() < st.attempts_left ==> (run_model(st, outs) matches StepView::Redirected(d)
            && d.attempts_left == st.attempts_left - outs.len()),
        outs.len() == st.attempts_left ==> run_model(st, outs) == StepView::Failed(
            JmapErrorView::Http("Too many redirects"@),
        ),
    decreases outs.len(),
{
    if outs.len() > 0 {
        assert(is_located_redirect(outs[0]));
        if st.attempts_left > 1 {
            let st2 = step_model(st, outs[0])->Redirected_0;
            lemma_redirects_exhaust_budget(st2, outs.drop_first());
        }
    }
}

/// A 401 on any hop ends discovery at once with the authentication-failure
/// variant: whatever answers may follow are never read.
pub proof fn lemma_auth_failure_short_circuits(st: DiscoveryView, outs: Seq<OutcomeView>, k: int)
    requires
        1 <= st.attempts_left,
        0 <= k < outs.len(),
        k < st.attempts_left,
        forall|i: int| 0 <= i < k ==> is_located_redirect(#[trigger] outs[i]),
        outs[k] matches OutcomeView::Reply(rep) && rep.status == 401,
    ensures
        run_model(st, outs) == StepView::Failed(JmapErrorView::AuthenticationFailed),
        run_model(st, outs) == run_model(st, outs.take(k + 1)),
    decreases k,
{
    if k == 0 {
        assert(outs.take(1)[0] == outs[0]);
    } else {
        assert(is_located_redirect(outs[0]));
        let st2 = step_model(st, outs[0])->Redirected_0;
        assert(forall|i: int|
            0 <= i < k - 1 ==> is_located_redirect(#[trigger] outs.drop_first()[i]));
        lemma_auth_failure_short_circuits(st2, outs.drop_first(), k - 1);
        assert(outs.take(k + 1)[0] == outs[0]);
        assert(outs.take(k + 1).drop_first() =~= outs.drop_first().take(k));
    }
}

/// A success status with an empty body is an HTTP error (the server broke
/// the protocol), not a parse error: no parsing is attempted.
pub proof fn lemma_empty_success_body_is_http_error(st: DiscoveryView, rep: ReplyView)
    requires
        200 <= rep.status < 300,
        rep.body.len() == 0,
    ensures
        step_model(st, OutcomeView::Reply(rep)) == StepView::Failed(
            JmapErrorView::Http(empty_body_text(rep.status)),
        ),
{
}

} // verus!
