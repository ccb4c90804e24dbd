//! Credential and search-history values, and the decisions of the login and
//! history-update flows. The key-value backend that stores them is driven by
//! the application, which hands the stored values in and writes the results
//! back.

use vstd::prelude::*;

use crate::text::str_eq;

verus! {

/// One search-history entry.
#[derive(Debug)]
pub struct SearchHistory {
    pub url: String,
    pub title: String,
    pub date: String,
    pub query: String,
}

/// The mathematical content of a history entry.
#[verifier::ext_equal]
pub struct SearchHistoryView {
    pub url: Seq<char>,
    pub title: Seq<char>,
    pub date: Seq<char>,
    pub query: Seq<char>,
}

impl View for SearchHistory {
    type V = SearchHistoryView;

    open spec fn view(&self) -> SearchHistoryView {
        SearchHistoryView {
            url: self.url@,
            title: self.title@,
            date: self.date@,
            query: self.query@,
        }
    }
}

impl DeepView for SearchHistory {
    type V = SearchHistoryView;

    open spec fn deep_view(&self) -> SearchHistoryView {
        self.view()
    }
}

impl Clone for SearchHistory {
    /// Clones the entry; the copy has the same mathematical content.
    fn clone(&self) -> (res: Self)
        ensures
            res@ == self@,
    {
        let res = SearchHistory {
            url: self.url.clone(),
            title: self.title.clone(),
            date: self.date.clone(),
            query: self.query.clone(),
        };
        proof {
            assert(res@ =~= self@);
        }
        res
    }
}

/// Clones a history list, keeping its content.
pub fn clone_history(v: &Vec<SearchHistory>) -> (r: Vec<SearchHistory>)
    ensures
        r.deep_view() == v.deep_view(),
{
    let mut out: Vec<SearchHistory> = Vec::new();
    let mut i: usize = 0;
    while i < v.len()
        invariant
            i <= v@.len(),
            out.deep_view() =~= v.deep_view().take(i as int),
        decreases v@.len() - i,
    {
        let ghost prev = out.deep_view();
        out.push(v[i].clone());
        proof {
            assert(out.deep_view() =~= prev.push(v@[i as int]@));
            assert(out.deep_view() =~= v.deep_view().take(i + 1));
        }
        i = i + 1;
    }
    proof {
        assert(v.deep_view().take(v@.len() as int) =~= v.deep_view());
    }
    out
}

/// What a successful login returns: the stored history and the user name.
#[derive(Debug)]
pub struct SearchHistoryResponse {
    pub search_histories: Vec<SearchHistory>,
    pub username: String,
}

/// A user's stored credentials and history.
#[derive(Debug)]
pub struct Credentials {
    pub username: String,
    pub password: String,
    pub history: Vec<SearchHistory>,
}

impl Credentials {
    /// Builds a credentials value from its parts.
    pub fn new(username: &str, password: &str, history: &Vec<SearchHistory>) -> (r: Credentials)
        ensures
            r.username@ == username@,
            r.password@ == password@,
            r.history.deep_view() == history.deep_view(),
    {
        Credentials {
            username: String::from_str(username),
            password: String::from_str(password),
            history: clone_history(history),
        }
    }

    /// The key under which the user is stored: `user:` and the user name.
    pub fn redis_key(&self) -> (r: String)
        ensures
            r@ == "user:"@ + self.username@,
    {
        String::from_str("user:").concat(self.username.as_str())
    }
}

/// The outcome of an authentication request.
pub enum AuthResult {
    /// An unspecified failure, a missing user, or a wrong password.
    Error(String),
    /// A successful login, with the user name and stored history.
    LoginConfirm(SearchHistoryResponse),
    /// A successful registration.
    RegisterConfirm,
    /// A successful history update.
    UpdateConfirm,
}

/// Decides a login request against the stored credentials, if any: a missing
/// user or a wrong password is an error; otherwise the stored history and
/// user name are returned.
pub fn login(credentials: &Credentials, stored: Option<Credentials>) -> (r: AuthResult)
    ensures
        match stored {
            None => r matches AuthResult::Error(m) && m@ == "User not found"@,
            Some(c) => {
                if c.password@ != credentials.password@ {
                    r matches AuthResult::Error(m) && m@ == "Invalid password."@
                } else {
                    r matches AuthResult::LoginConfirm(resp)
                        && resp.search_histories.deep_view() == c.history.deep_view()
                        && resp.username@ == c.username@
                }
            },
        },
{
    match stored {
        None => AuthResult::Error(String::from_str("User not found")),
        Some(c) => {
            if !str_eq(c.password.as_str(), credentials.password.as_str()) {
                AuthResult::Error(String::from_str("Invalid password."))
            } else {
                AuthResult::LoginConfirm(
                    SearchHistoryResponse { search_histories: c.history, username: c.username },
                )
            }
        },
    }
}

/// Decides a history update: the request's entries are appended to the
/// stored history (an absent history counts as empty). The first component
/// is the merged history to store back; the second confirms the update.
pub fn add_history(stored: Option<Vec<SearchHistory>>, credentials: &Credentials) -> (r: (
    Vec<SearchHistory>,
    AuthResult,
))
    ensures
        r.0.deep_view() == (match stored {
            Some(h) => h.deep_view(),
            None => Seq::<SearchHistoryView>::empty(),
        }) + credentials.history.deep_view(),
        r.1 is UpdateConfirm,
{
    let mut merged = match stored {
        Some(h) => h,
        None => Vec::new(),
    };
    let ghost base = merged.deep_view();
    proof {
        assert(base =~= match stored {
            Some(h) => h.deep_view(),
            None => Seq::<SearchHistoryView>::empty(),
        });
    }
    let mut extra = clone_history(&credentials.history);
    let ghost extra_view = extra.deep_view();
    merged.append(&mut extra);
    proof {
        assert(merged.deep_view() =~= base + extra_view);
    }
    (merged, AuthResult::UpdateConfirm)
}

} // verus!
