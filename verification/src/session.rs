//! The fetch coordinator: a state machine over the blocking flag, the chart
//! store and the user-visible error state.  At most one fetch is ever
//! outstanding — a submit while one is pending is ignored — and every
//! finished fetch clears the flag, so no result is lost.  Each outcome is
//! terminal for its own request only: errors leave the stored charts and
//! selections untouched.

use vstd::prelude::*;
use vstd::string::*;

use crate::cache::SelectionCache;
use crate::chart::{build_chart, spec_build_ok, spec_facet_months, spec_facet_name, spec_matches,
    spec_total};
use crate::chart::{facet_ok, primary_ok, BuildOutcome, Chart};
use crate::encode::{query_identity, spec_identity};
use crate::json::JsonValue;
use crate::store::{bounded_suffix, has_key, key_index, lemma_key_index, spec_insert};
use crate::store::{QueryStore, MAX_SAVED_QUERIES};
use crate::text::{contains_seq, spec_trim, str_contains, trim};

verus! {

/// What one finished fetch brought back, as the caller decoded it.
pub enum FetchOutcome {
    /// Success status: the decoded body, or nothing when the body was not
    /// valid JSON.
    Response(Option<JsonValue>),
    /// HTTP error status: the decoded error body, or nothing when it was
    /// not valid JSON.
    HttpStatus(Option<JsonValue>),
    /// Transport-level failure, with its reported message text.
    Transport(String),
}

/// What the caller must do after a submit.
pub enum SubmitAction {
    /// A fetch is already outstanding; nothing changed.
    Ignored,
    /// The query text was empty; the error message was set, no fetch runs.
    Rejected,
    /// Start one fetch with this query text and trimmed facet text.
    Dispatch(String, String),
}

/// The error message of a decoded HTTP error body, when it carries one.
pub open spec fn error_msg_of(body: JsonValue) -> Option<Seq<char>> {
    match body.spec_get("error"@) {
        Some(v) => v.spec_as_str(),
        None => None,
    }
}

/// Coordinator state: what the foreground loop owns between events.
pub struct Session {
    pub running: bool,
    pub blocking: bool,
    pub no_results: bool,
    pub api_error: String,
    pub last_query: String,
    pub pending_query: String,
    pub pending_facets: String,
    pub store: QueryStore,
    pub cache: SelectionCache,
}

impl Session {
    /// The store's identities are unique and the store never exceeds its
    /// capacity.
    pub open spec fn wf(self) -> bool {
        &&& self.store.wf()
        &&& self.store@.len() <= MAX_SAVED_QUERIES as int
    }

    pub fn new() -> (r: Session)
        ensures
            r.wf(),
            r.running,
            !r.blocking,
            !r.no_results,
            r.api_error@ == Seq::<char>::empty(),
            r.last_query@ == Seq::<char>::empty(),
            r.store@ == Seq::<(Seq<char>, Chart)>::empty(),
            r.cache@ == Map::<Seq<char>, (Option<usize>, Seq<usize>)>::empty(),
    {
        Session {
            running: true,
            blocking: false,
            no_results: false,
            api_error: String::new(),
            last_query: String::new(),
            pending_query: String::new(),
            pending_facets: String::new(),
            store: QueryStore::new(),
            cache: SelectionCache::new(),
        }
    }

    /// Stops the event loop.
    pub fn quit(&mut self)
        ensures
            !final (self).running,
            final (self).blocking == old(self).blocking,
            final (self).store == old(self).store,
            final (self).cache == old(self).cache,
    {
        self.running = false;
    }

    /// Validates a query and, when nothing is outstanding and the trimmed
    /// query text is non-empty, locks the session and asks the caller to
    /// run one fetch.  An empty query is rejected with an error message
    /// before any fetch; a submit while blocked changes nothing.
    pub fn submit(&mut self, query: &str, facets: &str) -> (r: SubmitAction)
        requires
            old(self).wf(),
        ensures
            final (self).wf(),
            final (self).running == old(self).running,
            final (self).no_results == old(self).no_results,
            final (self).last_query == old(self).last_query,
            final (self).store == old(self).store,
            final (self).cache == old(self).cache,
            old(self).blocking ==> r is Ignored && *final (self) == *old(self),
            !old(self).blocking && spec_trim(query@).len() == 0 ==> {
                &&& r is Rejected
                &&& !final (self).blocking
                &&& final (self).api_error@ == "Invalid search query"@
                &&& final (self).pending_query == old(self).pending_query
                &&& final (self).pending_facets == old(self).pending_facets
            },
            !old(self).blocking && spec_trim(query@).len() > 0 ==> {
                &&& r matches SubmitAction::Dispatch(q, f)
                &&& q@ == query@
                &&& f@ == spec_trim(facets@)
                &&& final (self).blocking
                &&& final (self).api_error == old(self).api_error
                &&& final (self).pending_query@ == query@
                &&& final (self).pending_facets@ == facets@
            },
    {
        if self.blocking {
            return SubmitAction::Ignored;
        }
        let qt = trim(query);
        if qt.as_str().unicode_len() == 0 {
            self.api_error = String::from_str("Invalid search query");
            return SubmitAction::Rejected;
        }
        self.blocking = true;
        self.pending_query = String::from_str(query);
        self.pending_facets = String::from_str(facets);
        let f = trim(facets);
        SubmitAction::Dispatch(String::from_str(query), f)
    }

    /// Consumes the result of the outstanding fetch: decodes it into a
    /// stored chart, the no-results state, or an error message, and clears
    /// the blocking flag.  The identity of the finished request becomes
    /// `last_query`.  Only a successfully built chart touches the store;
    /// every error leaves it as it was.
    pub fn on_result(&mut self, outcome: FetchOutcome)
        requires
            old(self).wf(),
        ensures
            final (self).wf(),
            !final (self).blocking,
            final (self).running == old(self).running,
            final (self).cache == old(self).cache,
            final (self).last_query@ == spec_identity(
                old(self).pending_query@,
                old(self).pending_facets@,
            ),
            match outcome {
                FetchOutcome::Response(opt) => match opt {
                    Some(json) => {
                        let ftrim = spec_trim(old(self).pending_facets@);
                        let id = spec_identity(
                            old(self).pending_query@,
                            old(self).pending_facets@,
                        );
                        &&& (spec_total(json) == Some(0i64) ==> {
                            &&& final (self).no_results
                            &&& final (self).api_error@ == Seq::<char>::empty()
                            &&& final (self).store@ == old(self).store@
                        })
                        &&& (spec_build_ok(json, ftrim) && spec_total(json) != Some(0i64) ==> {
                            &&& !final (self).no_results
                            &&& final (self).api_error@ == Seq::<char>::empty()
                            &&& final (self).store@.len() <= MAX_SAVED_QUERIES as int
                            &&& has_key(final (self).store@, id)
                            &&& ({
                                let c = final (self).store@[key_index(final (self).store@, id)].1;
                                &&& primary_ok(c, id, spec_total(json)->0, spec_matches(json)->0)
                                &&& (ftrim.len() == 0 ==> c.facets is None)
                                &&& (ftrim.len() > 0 ==> ({
                                    &&& c.facets matches Some(fc)
                                    &&& facet_ok(
                                        *fc,
                                        spec_facet_months(json, spec_facet_name(ftrim))->0,
                                    )
                                }))
                            })
                            &&& final (self).store@ == bounded_suffix(
                                spec_insert(
                                    old(self).store@,
                                    id,
                                    final (self).store@[key_index(final (self).store@, id)].1,
                                ),
                            )
                        })
                        &&& (!spec_build_ok(json, ftrim) ==> {
                            &&& final (self).api_error@ == "Failed to parse API response."@
                            &&& final (self).store@ == old(self).store@
                            &&& final (self).no_results == old(self).no_results
                        })
                    },
                    None => {
                        &&& final (self).api_error@ == "Failed to parse API response."@
                        &&& final (self).store@ == old(self).store@
                        &&& final (self).no_results == old(self).no_results
                    },
                },
                FetchOutcome::HttpStatus(opt) => {
                    &&& final (self).store@ == old(self).store@
                    &&& final (self).no_results == old(self).no_results
                    &&& match opt {
                        Some(body) => {
                            &&& (error_msg_of(body) matches Some(m) ==> final (
                                self
                            ).api_error@ == m)
                            &&& (error_msg_of(body) is None ==> final (self).api_error@
                                == "Search failed, please try again later."@)
                        },
                        None => final (self).api_error@
                            == "Search failed, please try again later."@,
                    }
                },
                FetchOutcome::Transport(msg) => {
                    &&& final (self).store@ == old(self).store@
                    &&& final (self).no_results == old(self).no_results
                    &&& (contains_seq(msg@, "timed out"@) ==> final (self).api_error@
                        == "Timed out, please try again later."@)
                    &&& (!contains_seq(msg@, "timed out"@) ==> final (self).api_error@
                        == "Search failed, please try again later."@)
                },
            },
    {
        let identity = query_identity(self.pending_query.as_str(), self.pending_facets.as_str());
        self.last_query = identity.clone();
        match outcome {
            FetchOutcome::Response(opt) => match opt {
                Some(json) => {
                    match build_chart(&json, identity.as_str(), self.pending_facets.as_str()) {
                        Ok(BuildOutcome::NoResults) => {
                            self.no_results = true;
                            self.api_error = String::new();
                        },
                        Ok(BuildOutcome::Built(chart)) => {
                            let ghost pre = self.store@;
                            let ghost id = identity@;
                            let ghost cval = chart;
                            self.store.insert_bounded(identity, chart);
                            self.no_results = false;
                            self.api_error = String::new();
                            proof {
                                let mid = spec_insert(pre, id, cval);
                                let v = self.store@;
                                lemma_key_index(pre, id);
                                if has_key(pre, id) {
                                    let ki = key_index(pre, id);
                                    assert(v =~= mid);
                                    assert(v[ki] == (id, cval));
                                    lemma_key_index(v, id);
                                    let kj = key_index(v, id);
                                    if kj < ki {
                                        assert(v[kj].0 == id);
                                        assert(pre[kj].0 != id);
                                        assert(false);
                                    }
                                    if kj > ki {
                                        assert(v[ki].0 != id);
                                        assert(false);
                                    }
                                    assert(v[key_index(v, id)].1 == cval);
                                } else {
                                    let d = mid.len() - v.len();
                                    assert(v[v.len() - 1] == (id, cval));
                                    lemma_key_index(v, id);
                                    let kj = key_index(v, id);
                                    if kj < v.len() - 1 {
                                        assert(v[kj].0 == id);
                                        assert(v[kj] == mid[d + kj]);
                                        assert(mid[d + kj] == pre[d + kj]);
                                        assert(pre[d + kj].0 != id);
                                        assert(false);
                                    }
                                    if kj >= v.len() {
                                        assert(v[v.len() - 1].0 != id);
                                        assert(false);
                                    }
                                    assert(v[key_index(v, id)].1 == cval);
                                }
                            }
                        },
                        Err(_) => {
                            self.api_error = String::from_str("Failed to parse API response.");
                        },
                    }
                },
                None => {
                    self.api_error = String::from_str("Failed to parse API response.");
                },
            },
            FetchOutcome::HttpStatus(opt) => match opt {
                Some(body) => match body.get("error") {
                    Some(v) => match v.as_str() {
                        Some(s) => {
                            self.api_error = s.clone();
                        },
                        None => {
                            self.api_error = String::from_str(
                                "Search failed, please try again later.",
                            );
                        },
                    },
                    None => {
                        self.api_error = String::from_str("Search failed, please try again later.");
                    },
                },
                None => {
                    self.api_error = String::from_str("Search failed, please try again later.");
                },
            },
            FetchOutcome::Transport(msg) => {
                if str_contains(msg.as_str(), "timed out") {
                    self.api_error = String::from_str("Timed out, please try again later.");
                } else {
                    self.api_error = String::from_str("Search failed, please try again later.");
                }
            },
        }
        self.blocking = false;
    }
}

} // verus!
