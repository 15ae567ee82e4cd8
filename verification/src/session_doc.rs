//! The session descriptor: the document the well-known endpoint serves,
//! and the selection of the mail account out of it.

use vstd::prelude::*;
use crate::json::{obj_get, Json, JsonView};

verus! {

broadcast use vstd::std_specs::vec::group_vec_axioms, vstd::seq::group_seq_axioms;

/// The capability URN that marks a mail account.
pub const MAIL_CAPABILITY: &'static str = "urn:ietf:params:jmap:mail";

/// What a session descriptor holds: the API endpoint, the primary account
/// per capability, and each account's capability set. Both mappings keep the
/// order in which the document listed their entries.
pub struct SessionDescriptor {
    /// The URL to POST method calls to.
    pub api_url: String,
    /// Capability URN to account id, in document order.
    pub primary_accounts: Vec<(String, String)>,
    /// Account id to the capabilities it supports, in document order.
    pub accounts: Vec<(String, Vec<String>)>,
}

/// The mathematical value of a [`SessionDescriptor`].
pub struct DescriptorView {
    pub api_url: Seq<char>,
    pub primary_accounts: Seq<(Seq<char>, Seq<char>)>,
    pub accounts: Seq<(Seq<char>, Seq<Seq<char>>)>,
}

impl View for SessionDescriptor {
    type V = DescriptorView;

    open spec fn view(&self) -> DescriptorView {
        DescriptorView {
            api_url: self.api_url@,
            primary_accounts: Seq::new(
                self.primary_accounts@.len(),
                |i: int| (self.primary_accounts@[i].0@, self.primary_accounts@[i].1@),
            ),
            accounts: Seq::new(
                self.accounts@.len(),
                |i: int|
                    (
                        self.accounts@[i].0@,
                        Seq::new(
                            self.accounts@[i].1@.len(),
                            |k: int| self.accounts@[i].1@[k]@,
                        ),
                    ),
            ),
        }
    }
}

/// The pairs of an object all of whose values are strings, else `None`.
pub open spec fn str_pairs_of(fields: Seq<(Seq<char>, JsonView)>) -> Option<
    Seq<(Seq<char>, Seq<char>)>,
>
    decreases fields.len(),
{
    if fields.len() == 0 {
        Some(Seq::empty())
    } else {
        match (str_pairs_of(fields.drop_last()), fields.last().1) {
            (Some(ps), JsonView::Str(s)) => Some(ps.push((fields.last().0, s))),
            _ => None,
        }
    }
}

/// The keys of an object, in order.
pub open spec fn key_seq_of(fields: Seq<(Seq<char>, JsonView)>) -> Seq<Seq<char>>
    decreases fields.len(),
{
    if fields.len() == 0 {
        Seq::empty()
    } else {
        key_seq_of(fields.drop_last()).push(fields.last().0)
    }
}

/// The account-to-capability-set pairs of an `accounts` object: each value
/// must itself be an object, whose keys are the capability set.
pub open spec fn cap_map_of(fields: Seq<(Seq<char>, JsonView)>) -> Option<
    Seq<(Seq<char>, Seq<Seq<char>>)>,
>
    decreases fields.len(),
{
    if fields.len() == 0 {
        Some(Seq::empty())
    } else {
        match (cap_map_of(fields.drop_last()), fields.last().1) {
            (Some(ps), JsonView::Obj(inner)) => Some(
                ps.push((fields.last().0, key_seq_of(inner))),
            ),
            _ => None,
        }
    }
}

/// What a session document means, if it has the expected shape: an object
/// with a string `apiUrl`, an optional object `primaryAccounts` of string
/// values, and an optional object `accounts` of object values (an absent
/// mapping counts as empty). Anything else is not a session document.
pub open spec fn descriptor_of(j: JsonView) -> Option<DescriptorView> {
    if !(j matches JsonView::Obj(_)) {
        None
    } else {
        match obj_get(j, "apiUrl"@) {
            Some(JsonView::Str(u)) => {
                let prim = match obj_get(j, "primaryAccounts"@) {
                    None => Some(Seq::empty()),
                    Some(JsonView::Obj(pf)) => str_pairs_of(pf),
                    Some(_) => None,
                };
                let accs = match obj_get(j, "accounts"@) {
                    None => Some(Seq::empty()),
                    Some(JsonView::Obj(af)) => cap_map_of(af),
                    Some(_) => None,
                };
                match (prim, accs) {
                    (Some(p), Some(a)) => Some(
                        DescriptorView { api_url: u, primary_accounts: p, accounts: a },
                    ),
                    _ => None,
                }
            },
            _ => None,
        }
    }
}

/// The value under the first pair keyed `k`, if any.
pub open spec fn assoc_str(pairs: Seq<(Seq<char>, Seq<char>)>, k: Seq<char>) -> Option<Seq<char>>
    decreases pairs.len(),
{
    if pairs.len() == 0 {
        None
    } else if pairs[0].0 == k {
        Some(pairs[0].1)
    } else {
        assoc_str(pairs.drop_first(), k)
    }
}

/// The id of the first account whose capability set contains `urn`, if any.
pub open spec fn first_account_with(
    accounts: Seq<(Seq<char>, Seq<Seq<char>>)>,
    urn: Seq<char>,
) -> Option<Seq<char>>
    decreases accounts.len(),
{
    if accounts.len() == 0 {
        None
    } else if accounts[0].1.contains(urn) {
        Some(accounts[0].0)
    } else {
        first_account_with(accounts.drop_first(), urn)
    }
}

/// Which account id discovery settles on: the primary mail account where
/// the document names one, else the first account that lists the mail
/// capability, else none.
pub open spec fn mail_account_of(d: DescriptorView) -> Option<Seq<char>> {
    match assoc_str(d.primary_accounts, "urn:ietf:params:jmap:mail"@) {
        Some(id) => Some(id),
        None => first_account_with(d.accounts, "urn:ietf:params:jmap:mail"@),
    }
}

/// A primary mail account always wins: whenever `primaryAccounts` maps the
/// mail capability to an id, that id is chosen, whatever `accounts` holds.
pub proof fn lemma_primary_account_preferred(d: DescriptorView, id: Seq<char>)
    requires
        assoc_str(d.primary_accounts, "urn:ietf:params:jmap:mail"@) == Some(id),
    ensures
        mail_account_of(d) == Some::<Seq<char>>(id),
{
}

pub proof fn lemma_assoc_str_found(pairs: Seq<(Seq<char>, Seq<char>)>, k: Seq<char>, i: int)
    requires
        0 <= i < pairs.len(),
        pairs[i].0 == k,
        forall|m: int| 0 <= m < i ==> pairs[m].0 != k,
    ensures
        assoc_str(pairs, k) == Some(pairs[i].1),
    decreases i,
{
    if i > 0 {
        lemma_assoc_str_found(pairs.drop_first(), k, i - 1);
    }
}

pub proof fn lemma_assoc_str_missing(pairs: Seq<(Seq<char>, Seq<char>)>, k: Seq<char>)
    requires
        forall|m: int| 0 <= m < pairs.len() ==> pairs[m].0 != k,
    ensures
        assoc_str(pairs, k) is None,
    decreases pairs.len(),
{
    if pairs.len() > 0 {
        lemma_assoc_str_missing(pairs.drop_first(), k);
    }
}

proof fn lemma_first_account_found(
    accounts: Seq<(Seq<char>, Seq<Seq<char>>)>,
    urn: Seq<char>,
    i: int,
)
    requires
        0 <= i < accounts.len(),
        accounts[i].1.contains(urn),
        forall|m: int| 0 <= m < i ==> !(#[trigger] accounts[m].1.contains(urn)),
    ensures
        first_account_with(accounts, urn) == Some(accounts[i].0),
    decreases i,
{
    if i > 0 {
        lemma_first_account_found(accounts.drop_first(), urn, i - 1);
    }
}

proof fn lemma_first_account_missing(accounts: Seq<(Seq<char>, Seq<Seq<char>>)>, urn: Seq<char>)
    requires
        forall|m: int| 0 <= m < accounts.len() ==> !(#[trigger] accounts[m].1.contains(urn)),
    ensures
        first_account_with(accounts, urn) is None,
    decreases accounts.len(),
{
    if accounts.len() > 0 {
        lemma_first_account_missing(accounts.drop_first(), urn);
    }
}

proof fn lemma_str_pairs_none(fields: Seq<(Seq<char>, JsonView)>, i: int)
    requires
        0 <= i < fields.len(),
        !(fields[i].1 matches JsonView::Str(_)),
    ensures
        str_pairs_of(fields) is None,
    decreases fields.len(),
{
    if i < fields.len() - 1 {
        lemma_str_pairs_none(fields.drop_last(), i);
    }
}

proof fn lemma_cap_map_none(fields: Seq<(Seq<char>, JsonView)>, i: int)
    requires
        0 <= i < fields.len(),
        !(fields[i].1 matches JsonView::Obj(_)),
    ensures
        cap_map_of(fields) is None,
    decreases fields.len(),
{
    if i < fields.len() - 1 {
        lemma_cap_map_none(fields.drop_last(), i);
    }
}

/// Reads a parsed session document into a descriptor, exactly as
/// [`descriptor_of`] says: `Err` on any document of the wrong shape.
#[verifier::loop_isolation(false)]
pub fn descriptor_from_json(j: &Json) -> (r: Result<SessionDescriptor, ()>)
    ensures
        r matches Ok(d) ==> descriptor_of(j@) == Some(d@),
        r is Err ==> descriptor_of(j@) is None,
{
    if j.as_obj().is_none() {
        return Err(());
    }
    let api_url: String = match j.get("apiUrl") {
        Some(v) => match v.as_str() {
            Some(u) => u.clone(),
            None => {
                return Err(());
            },
        },
        None => {
            return Err(());
        },
    };
    let mut primary: Vec<(String, String)> = Vec::new();
    match j.get("primaryAccounts") {
        None => {
            proof {
                assert(str_pairs_of(Seq::<(Seq<char>, JsonView)>::empty()) == Some(
                    Seq::<(Seq<char>, Seq<char>)>::empty(),
                ));
            }
        },
        Some(pj) => {
            let pf = match pj.as_obj() {
                Some(pf) => pf,
                None => {
                    return Err(());
                },
            };
            let ghost pfv: Seq<(Seq<char>, JsonView)> = pj@->Obj_0;
            let n = pf.len();
            let mut i: usize = 0;
            while i < n
                invariant
                    n == pf@.len(),
                    i <= n,
                    pfv == pj@->Obj_0,
                    pj@ matches JsonView::Obj(_),
                    pfv.len() == n,
                    forall|m: int|
                        0 <= m < n ==> #[trigger] pfv[m] == (pf@[m].0@, crate::json::json_view(
                            pf@[m].1,
                        )),
                    primary@.len() == i,
                    str_pairs_of(pfv.take(i as int)) matches Some(ps) && ps.len() == i && forall|
                        m: int,
                    | 0 <= m < i ==> #[trigger] ps[m] == (primary@[m].0@, primary@[m].1@),
                decreases n - i,
            {
                let val: &Json = &pf[i].1;
                match val.as_str() {
                    Some(s) => {
                        primary.push((pf[i].0.clone(), s.clone()));
                        proof {
                            assert(pfv.take(i + 1).drop_last() =~= pfv.take(i as int));
                            assert(pfv.take(i + 1).last() == pfv[i as int]);
                        }
                    },
                    None => {
                        proof {
                            lemma_str_pairs_none(pfv, i as int);
                        }
                        return Err(());
                    },
                }
                i = i + 1;
            }
            proof {
                assert(pfv.take(n as int) =~= pfv);
            }
        },
    }
    let mut accounts: Vec<(String, Vec<String>)> = Vec::new();
    match j.get("accounts") {
        None => {
            proof {
                assert(cap_map_of(Seq::<(Seq<char>, JsonView)>::empty()) == Some(
                    Seq::<(Seq<char>, Seq<Seq<char>>)>::empty(),
                ));
            }
        },
        Some(aj) => {
            let af = match aj.as_obj() {
                Some(af) => af,
                None => {
                    return Err(());
                },
            };
            let ghost afv: Seq<(Seq<char>, JsonView)> = aj@->Obj_0;
            let n = af.len();
            let mut i: usize = 0;
            while i < n
                invariant
                    n == af@.len(),
                    i <= n,
                    afv == aj@->Obj_0,
                    aj@ matches JsonView::Obj(_),
                    afv.len() == n,
                    forall|m: int|
                        0 <= m < n ==> #[trigger] afv[m] == (af@[m].0@, crate::json::json_view(
                            af@[m].1,
                        )),
                    accounts@.len() == i,
                    cap_map_of(afv.take(i as int)) matches Some(cs) && cs.len() == i && forall|
                        m: int,
                    | 0 <= m < i ==> #[trigger] cs[m] == (accounts@[m].0@, Seq::new(
                            accounts@[m].1@.len(),
                            |k: int| accounts@[m].1@[k]@,
                        )),
                decreases n - i,
            {
                let val: &Json = &af[i].1;
                match val.as_obj() {
                    Some(inner) => {
                        let ghost innerv: Seq<(Seq<char>, JsonView)> = crate::json::json_view(
                            af@[i as int].1,
                        )->Obj_0;
                        let mut caps: Vec<String> = Vec::new();
                        let ni = inner.len();
                        let mut k: usize = 0;
                        while k < ni
                            invariant
                                ni == inner@.len(),
                                k <= ni,
                                innerv.len() == ni,
                                forall|m: int|
                                    0 <= m < ni ==> #[trigger] innerv[m].0 == inner@[m].0@,
                                key_seq_of(innerv.take(k as int)).len() == caps@.len(),
                                caps@.len() == k,
                                forall|m: int|
                                    0 <= m < k ==> #[trigger] key_seq_of(
                                        innerv.take(k as int),
                                    )[m] == caps@[m]@,
                            decreases ni - k,
                        {
                            caps.push(inner[k].0.clone());
                            proof {
                                assert(innerv.take(k + 1).drop_last() =~= innerv.take(k as int));
                                assert(innerv.take(k + 1).last() == innerv[k as int]);
                            }
                            k = k + 1;
                        }
                        proof {
                            assert(innerv.take(ni as int) =~= innerv);
                        }
                        accounts.push((af[i].0.clone(), caps));
                        proof {
                            assert(afv.take(i + 1).drop_last() =~= afv.take(i as int));
                            assert(afv.take(i + 1).last() == afv[i as int]);
                            let cs1 = cap_map_of(afv.take(i + 1))->0;
                            assert(cs1[i as int].1 =~= Seq::new(
                                accounts@[i as int].1@.len(),
                                |m: int| accounts@[i as int].1@[m]@,
                            ));
                        }
                    },
                    None => {
                        proof {
                            lemma_cap_map_none(afv, i as int);
                        }
                        return Err(());
                    },
                }
                i = i + 1;
            }
            proof {
                assert(afv.take(n as int) =~= afv);
            }
        },
    }
    let d = SessionDescriptor { api_url, primary_accounts: primary, accounts };
    proof {
        let dv = descriptor_of(j@)->0;
        assert(dv.primary_accounts =~= d@.primary_accounts);
        assert(dv.accounts =~= d@.accounts);
        assert(forall|m: int|
            0 <= m < d@.accounts.len() ==> #[trigger] dv.accounts[m].1 =~= d@.accounts[m].1);
    }
    Ok(d)
}

impl SessionDescriptor {
    /// The account to run mail operations against, as [`mail_account_of`]
    /// says: the primary mail account if named, else the first account
    /// listing the mail capability.
    pub fn mail_account_id(&self) -> (r: Option<String>)
        ensures
            match r {
                Some(id) => mail_account_of(self@) == Some(id@),
                None => mail_account_of(self@) is None,
            },
    {
        let np = self.primary_accounts.len();
        let mut i: usize = 0;
        while i < np
            invariant
                np == self.primary_accounts@.len(),
                i <= np,
                forall|m: int| 0 <= m < i ==> self@.primary_accounts[m].0 != MAIL_CAPABILITY@,
            decreases np - i,
        {
            if crate::text::str_eq(self.primary_accounts[i].0.as_str(), MAIL_CAPABILITY) {
                proof {
                    lemma_assoc_str_found(self@.primary_accounts, MAIL_CAPABILITY@, i as int);
                }
                return Some(self.primary_accounts[i].1.clone());
            }
            i = i + 1;
        }
        proof {
            lemma_assoc_str_missing(self@.primary_accounts, MAIL_CAPABILITY@);
        }
        let na = self.accounts.len();
        let mut a: usize = 0;
        while a < na
            invariant
                na == self.accounts@.len(),
                a <= na,
                assoc_str(self@.primary_accounts, MAIL_CAPABILITY@) is None,
                forall|m: int|
                    0 <= m < a ==> !(#[trigger] self@.accounts[m].1.contains(MAIL_CAPABILITY@)),
            decreases na - a,
        {
            let caps = &self.accounts[a].1;
            let nc = caps.len();
            let mut c: usize = 0;
            let mut found = false;
            while c < nc && !found
                invariant
                    nc == caps@.len(),
                    a < na,
                    na == self.accounts@.len(),
                    caps@ == self.accounts@[a as int].1@,
                    c <= nc,
                    found ==> self@.accounts[a as int].1.contains(MAIL_CAPABILITY@),
                    !found ==> forall|m: int|
                        0 <= m < c ==> self@.accounts[a as int].1[m] != MAIL_CAPABILITY@,
                decreases nc - c + (if found { 0int } else { 1int }),
            {
                if crate::text::str_eq(caps[c].as_str(), MAIL_CAPABILITY) {
                    proof {
                        assert(self@.accounts[a as int].1[c as int] == MAIL_CAPABILITY@);
                    }
                    found = true;
                } else {
                    c = c + 1;
                }
            }
            if found {
                proof {
                    lemma_first_account_found(self@.accounts, MAIL_CAPABILITY@, a as int);
                }
                return Some(self.accounts[a].0.clone());
            }
            proof {
                assert(!self@.accounts[a as int].1.contains(MAIL_CAPABILITY@));
            }
            a = a + 1;
        }
        proof {
            lemma_first_account_missing(self@.accounts, MAIL_CAPABILITY@);
        }
        None
    }
}

} // verus!
