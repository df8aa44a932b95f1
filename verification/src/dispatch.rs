//! Hook dispatch over the registry.
//!
//! Whenever the host handles a record edit, an authorization check, a route
//! or a periodic tick, it asks the pool to invoke the corresponding hook on
//! every registered plugin, in registration order, under the policy the
//! hook calls for: a unanimous-allow poll for authorization, first claimed
//! response for routes, a sequential fold with short-circuit denial for
//! pre-edit, and an unconditional pass over every plugin for the hooks
//! without a result.
use vstd::prelude::*;
use vstd::string::StringExecFns;

use std::collections::HashMap;

use crate::api::DbView;
use crate::api::Plugin;
use crate::api::PluginApi;
use crate::api::RouteKind;
use crate::api::WebResponse;
use crate::api::WebResponseView;
use crate::api::claims_route;
use crate::api::merged_view;
use crate::api::db_view;
use crate::items::ActionKind;
use crate::items::Item;
use crate::items::ProcessResult;
use crate::items::ProcessResultView;
use crate::items::ItemView;
use crate::items::opt_item_view;
use crate::plugin_pool::PluginPool;

verus! {

/// The inputs of one authorization check, as specifications see them.
#[verifier::ext_equal]
pub struct AuthQuery {
    pub db: DbView,
    pub hndl: Seq<char>,
    pub user: Option<ItemView>,
    pub collection: Seq<char>,
    pub id: u64,
    pub new_item: Option<ItemView>,
    pub del: bool,
}

/// One plugin's authorization vote and resulting state.
pub open spec fn auth_step<P: Plugin>(p: P, q: AuthQuery) -> (bool, P) {
    p.auth_spec(q.db, q.hndl, q.user, q.collection, q.id, q.new_item, q.del)
}

/// The unanimous-allow authorization poll over a sequence of plugins:
/// plugins vote in order and the first refusal stops the poll; the request
/// is allowed only when every plugin allowed it, and denied when no plugin
/// is registered.  Yields the aggregate verdict and the plugin states
/// after the poll.
pub open spec fn run_auth<P: Plugin>(plugins: Seq<P>, q: AuthQuery) -> (bool, Seq<P>)
    decreases plugins.len(),
{
    if plugins.len() == 0 {
        (false, Seq::empty())
    } else {
        let (v, s2) = auth_step(plugins[0], q);
        if !v {
            (false, seq![s2] + plugins.skip(1))
        } else {
            let rest = run_auth(plugins.skip(1), q);
            (plugins.len() == 1 || rest.0, seq![s2] + rest.1)
        }
    }
}

/// After a prefix of allowing voters, the poll behaves as the poll over
/// the remaining plugins, with the prefix's states updated.
proof fn lemma_run_auth_decompose<P: Plugin>(plugins: Seq<P>, q: AuthQuery, i: int)
    requires
        0 <= i <= plugins.len(),
        forall|j: int| 0 <= j < i ==> auth_step(#[trigger] plugins[j], q).0,
    ensures
        run_auth(plugins, q).1 == Seq::new(i as nat, |j: int| auth_step(plugins[j], q).1)
            + run_auth(plugins.skip(i), q).1,
        run_auth(plugins, q).0 == if i < plugins.len() {
            run_auth(plugins.skip(i), q).0
        } else {
            plugins.len() > 0
        },
    decreases i,
{
    if i == 0 {
        assert(plugins.skip(0) =~= plugins);
        assert(run_auth(plugins, q).1 =~= Seq::new(0, |j: int| auth_step(plugins[j], q).1)
            + run_auth(plugins, q).1);
    } else {
        lemma_run_auth_decompose(plugins, q, i - 1);
        let tail = plugins.skip(i - 1);
        assert(tail[0] == plugins[i - 1]);
        assert(auth_step(tail[0], q).0);
        assert(tail.skip(1) =~= plugins.skip(i));
        let (v, s2) = auth_step(tail[0], q);
        assert(run_auth(tail, q).1 == seq![s2] + run_auth(plugins.skip(i), q).1);
        assert(run_auth(plugins, q).1 =~= Seq::new(i as nat, |j: int| auth_step(plugins[j], q).1)
            + run_auth(plugins.skip(i), q).1);
        if i < plugins.len() {
        } else {
            assert(tail.len() == 1);
        }
    }
}

/// The unanimous-allow poll allows exactly when at least one plugin is
/// registered and every plugin's vote allows.
pub proof fn lemma_auth_unanimous<P: Plugin>(plugins: Seq<P>, q: AuthQuery)
    ensures
        run_auth(plugins, q).0 == (plugins.len() > 0 && forall|i: int|
            0 <= i < plugins.len() ==> auth_step(#[trigger] plugins[i], q).0),
    decreases plugins.len(),
{
    if plugins.len() > 0 {
        let (v, s2) = auth_step(plugins[0], q);
        lemma_auth_unanimous(plugins.skip(1), q);
        if !v {
        } else if plugins.len() == 1 {
            assert forall|i: int| 0 <= i < plugins.len() implies auth_step(
                #[trigger] plugins[i],
                q,
            ).0 by {
                assert(i == 0);
            }
        } else {
            if forall|i: int| 0 <= i < plugins.skip(1).len() ==> auth_step(
                #[trigger] plugins.skip(1)[i],
                q,
            ).0 {
                assert forall|i: int| 0 <= i < plugins.len() implies auth_step(
                    #[trigger] plugins[i],
                    q,
                ).0 by {
                    if i > 0 {
                        assert(plugins.skip(1)[i - 1] == plugins[i]);
                        assert(auth_step(plugins.skip(1)[i - 1], q).0);
                    }
                }
            } else {
                let i = choose|i: int|
                    0 <= i < plugins.skip(1).len() && !auth_step(
                        #[trigger] plugins.skip(1)[i],
                        q,
                    ).0;
                assert(plugins.skip(1)[i] == plugins[i + 1]);
                assert(!auth_step(plugins[i + 1], q).0);
            }
        }
    }
}


/// The inputs of one route dispatch, as specifications see them.
#[verifier::ext_equal]
pub struct RouteQuery {
    pub db: DbView,
    pub hndl: Seq<char>,
    pub user: Option<ItemView>,
    pub query: Seq<char>,
    pub itm: Option<ItemView>,
    pub kind: RouteKind,
}

/// One plugin's response and resulting state for a route.
pub open spec fn route_step<P: Plugin>(p: P, q: RouteQuery) -> (WebResponseView, P) {
    p.route_spec(q.db, q.hndl, q.user, q.query, q.itm, q.kind)
}

/// First-match route dispatch over a sequence of plugins: plugins are
/// asked in order and the first response other than `NotImplemented` is
/// returned; the plugins after it are not invoked.  When every plugin
/// answers `NotImplemented` — in particular when none is registered — the
/// aggregate is `NotImplemented`, which the host surfaces as its
/// not-found outcome.
pub open spec fn run_route<P: Plugin>(plugins: Seq<P>, q: RouteQuery) -> (WebResponseView, Seq<P>)
    decreases plugins.len(),
{
    if plugins.len() == 0 {
        (WebResponseView::NotImplemented, Seq::empty())
    } else {
        let (w, s2) = route_step(plugins[0], q);
        if claims_route(w) {
            (w, seq![s2] + plugins.skip(1))
        } else {
            let rest = run_route(plugins.skip(1), q);
            (rest.0, seq![s2] + rest.1)
        }
    }
}

/// After a prefix of plugins that did not claim the route, dispatch
/// behaves as dispatch over the remaining plugins, with the prefix's
/// states updated.
proof fn lemma_run_route_decompose<P: Plugin>(plugins: Seq<P>, q: RouteQuery, i: int)
    requires
        0 <= i <= plugins.len(),
        forall|j: int| 0 <= j < i ==> !claims_route(route_step(#[trigger] plugins[j], q).0),
    ensures
        run_route(plugins, q).1 == Seq::new(i as nat, |j: int| route_step(plugins[j], q).1)
            + run_route(plugins.skip(i), q).1,
        run_route(plugins, q).0 == run_route(plugins.skip(i), q).0,
    decreases i,
{
    if i == 0 {
        assert(plugins.skip(0) =~= plugins);
        assert(run_route(plugins, q).1 =~= Seq::new(0, |j: int| route_step(plugins[j], q).1)
            + run_route(plugins, q).1);
    } else {
        lemma_run_route_decompose(plugins, q, i - 1);
        let tail = plugins.skip(i - 1);
        assert(tail[0] == plugins[i - 1]);
        assert(!claims_route(route_step(tail[0], q).0));
        assert(tail.skip(1) =~= plugins.skip(i));
        let (w, s2) = route_step(tail[0], q);
        assert(run_route(tail, q).1 == seq![s2] + run_route(plugins.skip(i), q).1);
        assert(run_route(plugins, q).1 =~= Seq::new(i as nat, |j: int| route_step(plugins[j], q).1)
            + run_route(plugins.skip(i), q).1);
    }
}

/// When every registered plugin declines a route, the aggregate response
/// is `NotImplemented` and every plugin was asked.
pub proof fn lemma_route_all_decline<P: Plugin>(plugins: Seq<P>, q: RouteQuery)
    requires
        forall|j: int| 0 <= j < plugins.len() ==> !claims_route(
            route_step(#[trigger] plugins[j], q).0,
        ),
    ensures
        run_route(plugins, q).0 is NotImplemented,
        run_route(plugins, q).1 == Seq::new(
            plugins.len(),
            |j: int| route_step(plugins[j], q).1,
        ),
{
    lemma_run_route_decompose(plugins, q, plugins.len() as int);
    assert(run_route(plugins.skip(plugins.len() as int), q).1 =~= Seq::<P>::empty());
    assert(run_route(plugins, q).1 =~= Seq::new(
        plugins.len(),
        |j: int| route_step(plugins[j], q).1,
    ));
}

/// When the plugin at position `k` is the first to claim a route, its
/// response is the aggregate response, every plugin before it moves to
/// its stepped state, and no plugin after it is invoked: their states are
/// untouched.
pub proof fn lemma_route_first_match<P: Plugin>(plugins: Seq<P>, q: RouteQuery, k: int)
    requires
        0 <= k < plugins.len(),
        claims_route(route_step(plugins[k], q).0),
        forall|j: int| 0 <= j < k ==> !claims_route(route_step(#[trigger] plugins[j], q).0),
    ensures
        run_route(plugins, q).0 == route_step(plugins[k], q).0,
        run_route(plugins, q).1 == Seq::new((k + 1) as nat, |j: int| route_step(plugins[j], q).1)
            + plugins.skip(k + 1),
{
    lemma_run_route_decompose(plugins, q, k);
    let tail = plugins.skip(k);
    assert(tail[0] == plugins[k]);
    assert(tail.skip(1) =~= plugins.skip(k + 1));
    assert(run_route(plugins, q).1 =~= Seq::new((k + 1) as nat, |j: int| route_step(plugins[j], q).1)
        + plugins.skip(k + 1));
}

impl<P: Plugin> PluginPool<P> {
    /// Ask every registered plugin, in registration order, whether the
    /// acting user may read, write or delete the given record.  The poll
    /// is unanimous-allow: the first refusal ends the poll and the
    /// request is allowed only if every plugin allowed it; with no
    /// plugins registered the request is denied.
    pub fn item_auth<A: PluginApi>(
        &mut self,
        api: &A,
        hndl: &str,
        user: &Option<Item>,
        collection: &str,
        id: u64,
        new_item: &Option<Item>,
        del: bool,
    ) -> (r: bool)
        ensures
            ({
                let q = AuthQuery {
                    db: db_view(api),
                    hndl: hndl@,
                    user: opt_item_view(*user),
                    collection: collection@,
                    id,
                    new_item: opt_item_view(*new_item),
                    del,
                };
                r == run_auth(old(self).plugins@, q).0 && final(self).plugins@ == run_auth(
                    old(self).plugins@,
                    q,
                ).1
            }),
    {
        let ghost q = AuthQuery {
            db: db_view(api),
            hndl: hndl@,
            user: opt_item_view(*user),
            collection: collection@,
            id,
            new_item: opt_item_view(*new_item),
            del,
        };
        let ghost orig = self.plugins@;
        let n = self.plugins.len();
        if n == 0 {
            proof {
                assert(orig =~= Seq::<P>::empty());
            }
            return false;
        }
        let mut i: usize = 0;
        while i < n
            invariant
                q == (AuthQuery {
                    db: db_view(api),
                    hndl: hndl@,
                    user: opt_item_view(*user),
                    collection: collection@,
                    id,
                    new_item: opt_item_view(*new_item),
                    del,
                }),
                orig == old(self).plugins@,
                n == orig.len(),
                self.plugins@.len() == n,
                0 <= i <= n,
                forall|j: int| 0 <= j < i ==> auth_step(#[trigger] orig[j], q).0
                    && self.plugins@[j] == auth_step(orig[j], q).1,
                forall|j: int| i <= j < n ==> self.plugins@[j] == orig[j],
            decreases n - i,
        {
            let allowed = self.plugins[i].item_auth_hook(
                api,
                hndl,
                user,
                collection,
                id,
                new_item,
                del,
            );
            if !allowed {
                proof {
                    lemma_run_auth_decompose(orig, q, i as int);
                    let tail = orig.skip(i as int);
                    assert(tail[0] == orig[i as int]);
                    assert(tail.skip(1) =~= orig.skip(i + 1));
                    assert(self.plugins@ =~= Seq::new(
                        i as nat,
                        |j: int| auth_step(orig[j], q).1,
                    ) + (seq![auth_step(orig[i as int], q).1] + orig.skip(i + 1)));
                }
                return false;
            }
            i = i + 1;
        }
        proof {
            lemma_run_auth_decompose(orig, q, n as int);
            assert(run_auth(orig.skip(n as int), q).1 =~= Seq::<P>::empty());
            assert(self.plugins@ =~= Seq::new(n as nat, |j: int| auth_step(orig[j], q).1)
                + run_auth(orig.skip(n as int), q).1);
        }
        true
    }
}


impl<P: Plugin> PluginPool<P> {
    /// Dispatch an authenticated custom route.  Plugins are asked in registration order; the first response
    /// other than `NotImplemented` is returned and the plugins after it
    /// are not invoked.  When every plugin declines, the aggregate is
    /// `NotImplemented`.
    pub fn route_url<A: PluginApi>(
        &mut self,
        api: &A,
        hndl: &str,
        user: &Option<Item>,
        query: &str,
    ) -> (r: WebResponse)
        ensures
            ({
                let q = RouteQuery {
                    db: db_view(api),
                    hndl: hndl@,
                    user: opt_item_view(*user),
                    query: query@,
                    itm: None,
                    kind: RouteKind::Protected,
                };
                r@ == run_route(old(self).plugins@, q).0 && final(self).plugins@ == run_route(
                    old(self).plugins@,
                    q,
                ).1
            }),
    {
        let ghost q = RouteQuery {
                    db: db_view(api),
                    hndl: hndl@,
                    user: opt_item_view(*user),
                    query: query@,
                    itm: None,
                    kind: RouteKind::Protected,
                };
        let ghost orig = self.plugins@;
        let n = self.plugins.len();
        let mut i: usize = 0;
        while i < n
            invariant
                q == (RouteQuery {
                    db: db_view(api),
                    hndl: hndl@,
                    user: opt_item_view(*user),
                    query: query@,
                    itm: None,
                    kind: RouteKind::Protected,
                }),
                orig == old(self).plugins@,
                n == orig.len(),
                self.plugins@.len() == n,
                0 <= i <= n,
                forall|j: int| 0 <= j < i ==> !claims_route(route_step(#[trigger] orig[j], q).0)
                    && self.plugins@[j] == route_step(orig[j], q).1,
                forall|j: int| i <= j < n ==> self.plugins@[j] == orig[j],
            decreases n - i,
        {
            let resp = self.plugins[i].route_url_hook(api, hndl, user, query);
            let claimed = !(matches!(resp, WebResponse::NotImplemented));
            if claimed {
                proof {
                    lemma_route_first_match(orig, q, i as int);
                    assert(self.plugins@ =~= Seq::new(
                        (i + 1) as nat,
                        |j: int| route_step(orig[j], q).1,
                    ) + orig.skip(i + 1));
                }
                return resp;
            }
            i = i + 1;
        }
        proof {
            lemma_route_all_decline(orig, q);
            assert(self.plugins@ =~= Seq::new(n as nat, |j: int| route_step(orig[j], q).1));
        }
        WebResponse::NotImplemented
    }
}

impl<P: Plugin> PluginPool<P> {
    /// Dispatch an authenticated custom route carrying a body payload.  Plugins are asked in registration order; the first response
    /// other than `NotImplemented` is returned and the plugins after it
    /// are not invoked.  When every plugin declines, the aggregate is
    /// `NotImplemented`.
    pub fn route_url_post<A: PluginApi>(
        &mut self,
        api: &A,
        hndl: &str,
        user: &Option<Item>,
        query: &str,
        itm: &Item,
    ) -> (r: WebResponse)
        ensures
            ({
                let q = RouteQuery {
                    db: db_view(api),
                    hndl: hndl@,
                    user: opt_item_view(*user),
                    query: query@,
                    itm: Some(itm@),
                    kind: RouteKind::ProtectedPost,
                };
                r@ == run_route(old(self).plugins@, q).0 && final(self).plugins@ == run_route(
                    old(self).plugins@,
                    q,
                ).1
            }),
    {
        let ghost q = RouteQuery {
                    db: db_view(api),
                    hndl: hndl@,
                    user: opt_item_view(*user),
                    query: query@,
                    itm: Some(itm@),
                    kind: RouteKind::ProtectedPost,
                };
        let ghost orig = self.plugins@;
        let n = self.plugins.len();
        let mut i: usize = 0;
        while i < n
            invariant
                q == (RouteQuery {
                    db: db_view(api),
                    hndl: hndl@,
                    user: opt_item_view(*user),
                    query: query@,
                    itm: Some(itm@),
                    kind: RouteKind::ProtectedPost,
                }),
                orig == old(self).plugins@,
                n == orig.len(),
                self.plugins@.len() == n,
                0 <= i <= n,
                forall|j: int| 0 <= j < i ==> !claims_route(route_step(#[trigger] orig[j], q).0)
                    && self.plugins@[j] == route_step(orig[j], q).1,
                forall|j: int| i <= j < n ==> self.plugins@[j] == orig[j],
            decreases n - i,
        {
            let resp = self.plugins[i].route_url_post_hook(api, hndl, user, query, itm);
            let claimed = !(matches!(resp, WebResponse::NotImplemented));
            if claimed {
                proof {
                    lemma_route_first_match(orig, q, i as int);
                    assert(self.plugins@ =~= Seq::new(
                        (i + 1) as nat,
                        |j: int| route_step(orig[j], q).1,
                    ) + orig.skip(i + 1));
                }
                return resp;
            }
            i = i + 1;
        }
        proof {
            lemma_route_all_decline(orig, q);
            assert(self.plugins@ =~= Seq::new(n as nat, |j: int| route_step(orig[j], q).1));
        }
        WebResponse::NotImplemented
    }
}

impl<P: Plugin> PluginPool<P> {
    /// Dispatch a custom route reachable without authentication.  Plugins are asked in registration order; the first response
    /// other than `NotImplemented` is returned and the plugins after it
    /// are not invoked.  When every plugin declines, the aggregate is
    /// `NotImplemented`.
    pub fn route_unprotected_url<A: PluginApi>(
        &mut self,
        api: &A,
        hndl: &str,
        user: &Option<Item>,
        query: &str,
    ) -> (r: WebResponse)
        ensures
            ({
                let q = RouteQuery {
                    db: db_view(api),
                    hndl: hndl@,
                    user: opt_item_view(*user),
                    query: query@,
                    itm: None,
                    kind: RouteKind::Unprotected,
                };
                r@ == run_route(old(self).plugins@, q).0 && final(self).plugins@ == run_route(
                    old(self).plugins@,
                    q,
                ).1
            }),
    {
        let ghost q = RouteQuery {
                    db: db_view(api),
                    hndl: hndl@,
                    user: opt_item_view(*user),
                    query: query@,
                    itm: None,
                    kind: RouteKind::Unprotected,
                };
        let ghost orig = self.plugins@;
        let n = self.plugins.len();
        let mut i: usize = 0;
        while i < n
            invariant
                q == (RouteQuery {
                    db: db_view(api),
                    hndl: hndl@,
                    user: opt_item_view(*user),
                    query: query@,
                    itm: None,
                    kind: RouteKind::Unprotected,
                }),
                orig == old(self).plugins@,
                n == orig.len(),
                self.plugins@.len() == n,
                0 <= i <= n,
                forall|j: int| 0 <= j < i ==> !claims_route(route_step(#[trigger] orig[j], q).0)
                    && self.plugins@[j] == route_step(orig[j], q).1,
                forall|j: int| i <= j < n ==> self.plugins@[j] == orig[j],
            decreases n - i,
        {
            let resp = self.plugins[i].route_unprotected_url_hook(api, hndl, user, query);
            let claimed = !(matches!(resp, WebResponse::NotImplemented));
            if claimed {
                proof {
                    lemma_route_first_match(orig, q, i as int);
                    assert(self.plugins@ =~= Seq::new(
                        (i + 1) as nat,
                        |j: int| route_step(orig[j], q).1,
                    ) + orig.skip(i + 1));
                }
                return resp;
            }
            i = i + 1;
        }
        proof {
            lemma_route_all_decline(orig, q);
            assert(self.plugins@ =~= Seq::new(n as nat, |j: int| route_step(orig[j], q).1));
        }
        WebResponse::NotImplemented
    }
}

impl<P: Plugin> PluginPool<P> {
    /// Dispatch an unauthenticated custom route carrying a body payload.  Plugins are asked in registration order; the first response
    /// other than `NotImplemented` is returned and the plugins after it
    /// are not invoked.  When every plugin declines, the aggregate is
    /// `NotImplemented`.
    pub fn route_unprotected_url_post<A: PluginApi>(
        &mut self,
        api: &A,
        hndl: &str,
        user: &Option<Item>,
        query: &str,
        itm: &Item,
    ) -> (r: WebResponse)
        ensures
            ({
                let q = RouteQuery {
                    db: db_view(api),
                    hndl: hndl@,
                    user: opt_item_view(*user),
                    query: query@,
                    itm: Some(itm@),
                    kind: RouteKind::UnprotectedPost,
                };
                r@ == run_route(old(self).plugins@, q).0 && final(self).plugins@ == run_route(
                    old(self).plugins@,
                    q,
                ).1
            }),
    {
        let ghost q = RouteQuery {
                    db: db_view(api),
                    hndl: hndl@,
                    user: opt_item_view(*user),
                    query: query@,
                    itm: Some(itm@),
                    kind: RouteKind::UnprotectedPost,
                };
        let ghost orig = self.plugins@;
        let n = self.plugins.len();
        let mut i: usize = 0;
        while i < n
            invariant
                q == (RouteQuery {
                    db: db_view(api),
                    hndl: hndl@,
                    user: opt_item_view(*user),
                    query: query@,
                    itm: Some(itm@),
                    kind: RouteKind::UnprotectedPost,
                }),
                orig == old(self).plugins@,
                n == orig.len(),
                self.plugins@.len() == n,
                0 <= i <= n,
                forall|j: int| 0 <= j < i ==> !claims_route(route_step(#[trigger] orig[j], q).0)
                    && self.plugins@[j] == route_step(orig[j], q).1,
                forall|j: int| i <= j < n ==> self.plugins@[j] == orig[j],
            decreases n - i,
        {
            let resp = self.plugins[i].route_unprotected_url_post_hook(api, hndl, user, query, itm);
            let claimed = !(matches!(resp, WebResponse::NotImplemented));
            if claimed {
                proof {
                    lemma_route_first_match(orig, q, i as int);
                    assert(self.plugins@ =~= Seq::new(
                        (i + 1) as nat,
                        |j: int| route_step(orig[j], q).1,
                    ) + orig.skip(i + 1));
                }
                return resp;
            }
            i = i + 1;
        }
        proof {
            lemma_route_all_decline(orig, q);
            assert(self.plugins@ =~= Seq::new(n as nat, |j: int| route_step(orig[j], q).1));
        }
        WebResponse::NotImplemented
    }
}


/// The inputs of one pre-edit dispatch, as specifications see them; the
/// proposed item itself is threaded separately, since each plugin sees
/// the item as modified by the plugins before it.
#[verifier::ext_equal]
pub struct PreEditQuery {
    pub db: DbView,
    pub hndl: Seq<char>,
    pub user: Option<ItemView>,
    pub collection: Seq<char>,
    pub old_itm: Option<ItemView>,
    pub action: ActionKind,
    pub merge: bool,
}

/// One plugin's pre-edit decision and resulting state, given the item as
/// the plugins before it left it.
pub open spec fn pre_edit_step<P: Plugin>(p: P, q: PreEditQuery, itm: ItemView) -> (
    ProcessResultView,
    P,
) {
    p.pre_edit_spec(q.db, q.hndl, q.user, q.collection, q.old_itm, itm, q.action, q.merge)
}

/// What a pre-edit dispatch left behind: the first denial reason if any
/// plugin denied, whether any consulted plugin modified the item, the
/// item after the fold, and the plugin states.
#[verifier::ext_equal]
pub struct PreEditFold<P> {
    pub denied: Option<Seq<char>>,
    pub modified: bool,
    pub itm: ItemView,
    pub states: Seq<P>,
}

/// The sequential pre-edit fold: plugins are consulted in registration
/// order, each seeing the item as the previous plugins modified it; the
/// first denial stops the fold and the plugins after it are not invoked.
pub open spec fn run_pre_edit<P: Plugin>(plugins: Seq<P>, q: PreEditQuery, itm: ItemView) -> PreEditFold<P>
    decreases plugins.len(),
{
    if plugins.len() == 0 {
        PreEditFold { denied: None, modified: false, itm, states: Seq::empty() }
    } else {
        let (r, s2) = pre_edit_step(plugins[0], q, itm);
        match r {
            ProcessResultView::Deny(reason) => PreEditFold {
                denied: Some(reason),
                modified: false,
                itm,
                states: seq![s2] + plugins.skip(1),
            },
            ProcessResultView::AllowUnchanged => {
                let rest = run_pre_edit(plugins.skip(1), q, itm);
                PreEditFold {
                    denied: rest.denied,
                    modified: rest.modified,
                    itm: rest.itm,
                    states: seq![s2] + rest.states,
                }
            },
            ProcessResultView::AllowModified(it2) => {
                let rest = run_pre_edit(plugins.skip(1), q, it2);
                PreEditFold {
                    denied: rest.denied,
                    modified: true,
                    itm: rest.itm,
                    states: seq![s2] + rest.states,
                }
            },
        }
    }
}

/// The pre-edit fold over plugins registered in two groups: the second
/// group is consulted only if the first denies nothing, and then starts
/// from the item the first group left.
pub proof fn lemma_run_pre_edit_concat<P: Plugin>(a: Seq<P>, b: Seq<P>, q: PreEditQuery, itm: ItemView)
    ensures
        run_pre_edit(a + b, q, itm) == ({
            let fa = run_pre_edit(a, q, itm);
            match fa.denied {
                Some(_) => PreEditFold {
                    denied: fa.denied,
                    modified: fa.modified,
                    itm: fa.itm,
                    states: fa.states + b,
                },
                None => {
                    let fb = run_pre_edit(b, q, fa.itm);
                    PreEditFold {
                        denied: fb.denied,
                        modified: fa.modified || fb.modified,
                        itm: fb.itm,
                        states: fa.states + fb.states,
                    }
                },
            }
        }),
    decreases a.len(),
{
    if a.len() == 0 {
        assert(a + b =~= b);
        assert(run_pre_edit(a, q, itm).states + run_pre_edit(b, q, itm).states =~= run_pre_edit(
            b,
            q,
            itm,
        ).states);
        assert(run_pre_edit(a + b, q, itm) =~= ({
            let fb = run_pre_edit(b, q, itm);
            PreEditFold {
                denied: fb.denied,
                modified: fb.modified,
                itm: fb.itm,
                states: run_pre_edit(a, q, itm).states + fb.states,
            }
        }));
    } else {
        assert((a + b)[0] == a[0]);
        assert((a + b).skip(1) =~= a.skip(1) + b);
        let (r, s2) = pre_edit_step(a[0], q, itm);
        match r {
            ProcessResultView::Deny(reason) => {
                assert(seq![s2] + (a.skip(1) + b) =~= (seq![s2] + a.skip(1)) + b);
                assert(run_pre_edit(a + b, q, itm) =~= PreEditFold {
                    denied: Some(reason),
                    modified: false,
                    itm,
                    states: run_pre_edit(a, q, itm).states + b,
                });
            },
            ProcessResultView::AllowUnchanged => {
                lemma_run_pre_edit_concat(a.skip(1), b, q, itm);
                let fa1 = run_pre_edit(a.skip(1), q, itm);
                match fa1.denied {
                    Some(_) => {
                        assert(seq![s2] + (fa1.states + b) =~= (seq![s2] + fa1.states) + b);
                    },
                    None => {
                        let fb = run_pre_edit(b, q, fa1.itm);
                        assert(seq![s2] + (fa1.states + fb.states) =~= (seq![s2] + fa1.states)
                            + fb.states);
                    },
                }
            },
            ProcessResultView::AllowModified(it2) => {
                lemma_run_pre_edit_concat(a.skip(1), b, q, it2);
                let fa1 = run_pre_edit(a.skip(1), q, it2);
                match fa1.denied {
                    Some(_) => {
                        assert(seq![s2] + (fa1.states + b) =~= (seq![s2] + fa1.states) + b);
                    },
                    None => {
                        let fb = run_pre_edit(b, q, fa1.itm);
                        assert(seq![s2] + (fa1.states + fb.states) =~= (seq![s2] + fa1.states)
                            + fb.states);
                    },
                }
            },
        }
    }
}

/// A pre-edit fold in which no plugin modified the record leaves the
/// record exactly as proposed.
pub proof fn lemma_pre_edit_unmodified<P: Plugin>(plugins: Seq<P>, q: PreEditQuery, itm: ItemView)
    ensures
        !run_pre_edit(plugins, q, itm).modified ==> run_pre_edit(plugins, q, itm).itm == itm,
    decreases plugins.len(),
{
    if plugins.len() > 0 {
        let (r, s2) = pre_edit_step(plugins[0], q, itm);
        match r {
            ProcessResultView::Deny(_) => {},
            ProcessResultView::AllowUnchanged => {
                lemma_pre_edit_unmodified(plugins.skip(1), q, itm);
            },
            ProcessResultView::AllowModified(_) => {},
        }
    }
}

/// Sequential visibility and short-circuit denial over two plugins: the
/// second plugin sees the item exactly as the first left it, and when the
/// first denies, the second is not invoked and its state is untouched.
pub proof fn lemma_pre_edit_sequential<P: Plugin>(p1: P, p2: P, q: PreEditQuery, itm: ItemView)
    ensures
        ({
            let (r1, s1) = pre_edit_step(p1, q, itm);
            let fold = run_pre_edit(seq![p1, p2], q, itm);
            match r1 {
                ProcessResultView::AllowModified(it2) => fold.states == seq![
                    s1,
                    pre_edit_step(p2, q, it2).1,
                ] && fold.denied == pre_edit_step(p2, q, it2).0.deny_reason(),
                ProcessResultView::AllowUnchanged => fold.states == seq![
                    s1,
                    pre_edit_step(p2, q, itm).1,
                ] && fold.denied == pre_edit_step(p2, q, itm).0.deny_reason(),
                ProcessResultView::Deny(reason) => fold.states == seq![s1, p2] && fold.denied
                    == Some(reason),
            }
        }),
{
    reveal_with_fuel(run_pre_edit, 4);
    let (r1, s1) = pre_edit_step(p1, q, itm);
    let both = seq![p1, p2];
    assert(both[0] == p1);
    assert(both.skip(1) =~= seq![p2]);
    let single = seq![p2];
    assert(single[0] == p2);
    assert(single.skip(1) =~= Seq::<P>::empty());
    match r1 {
        ProcessResultView::AllowModified(it2) => {
            let (r2, s2) = pre_edit_step(p2, q, it2);
            match r2 {
                ProcessResultView::Deny(_) => {
                    assert(run_pre_edit(both, q, itm).states =~= seq![s1, s2]);
                },
                ProcessResultView::AllowUnchanged => {
                    assert(run_pre_edit(both, q, itm).states =~= seq![s1, s2]);
                },
                ProcessResultView::AllowModified(_) => {
                    assert(run_pre_edit(both, q, itm).states =~= seq![s1, s2]);
                },
            }
        },
        ProcessResultView::AllowUnchanged => {
            let (r2, s2) = pre_edit_step(p2, q, itm);
            match r2 {
                ProcessResultView::Deny(_) => {
                    assert(run_pre_edit(both, q, itm).states =~= seq![s1, s2]);
                },
                ProcessResultView::AllowUnchanged => {
                    assert(run_pre_edit(both, q, itm).states =~= seq![s1, s2]);
                },
                ProcessResultView::AllowModified(_) => {
                    assert(run_pre_edit(both, q, itm).states =~= seq![s1, s2]);
                },
            }
        },
        ProcessResultView::Deny(_) => {
            assert(run_pre_edit(both, q, itm).states =~= seq![s1, p2]);
        },
    }
}


impl<P: Plugin> PluginPool<P> {
    /// Consult every registered plugin before an edit is persisted.  The
    /// fold is sequential: each plugin sees the item as the previous
    /// plugins modified it; the first denial is returned at once and the
    /// plugins after it are not invoked.  Otherwise the decision is allow,
    /// carrying the folded item when any plugin modified it.
    pub fn item_pre_edit<A: PluginApi>(
        &mut self,
        api: &A,
        hndl: &str,
        user: &Option<Item>,
        collection: &str,
        old_itm: &Option<Item>,
        itm: &Item,
        action: ActionKind,
        merge: bool,
    ) -> (r: ProcessResult)
        ensures
            ({
                let q = PreEditQuery {
                    db: db_view(api),
                    hndl: hndl@,
                    user: opt_item_view(*user),
                    collection: collection@,
                    old_itm: opt_item_view(*old_itm),
                    action,
                    merge,
                };
                let fold = run_pre_edit(old(self).plugins@, q, itm@);
                final(self).plugins@ == fold.states && r@ == (match fold.denied {
                    Some(reason) => ProcessResultView::Deny(reason),
                    None => if fold.modified {
                        ProcessResultView::AllowModified(fold.itm)
                    } else {
                        ProcessResultView::AllowUnchanged
                    },
                })
            }),
    {
        let ghost q = PreEditQuery {
            db: db_view(api),
            hndl: hndl@,
            user: opt_item_view(*user),
            collection: collection@,
            old_itm: opt_item_view(*old_itm),
            action,
            merge,
        };
        let ghost orig = self.plugins@;
        let ghost itm0 = itm@;
        let mut cur: Item = itm.clone();
        let mut modified = false;
        let n = self.plugins.len();
        let mut i: usize = 0;
        proof {
            assert(orig.take(0) =~= Seq::<P>::empty());
            assert(self.plugins@.take(0) =~= Seq::<P>::empty());
        }
        while i < n
            invariant
                q == (PreEditQuery {
                    db: db_view(api),
                    hndl: hndl@,
                    user: opt_item_view(*user),
                    collection: collection@,
                    old_itm: opt_item_view(*old_itm),
                    action,
                    merge,
                }),
                itm0 == itm@,
                orig == old(self).plugins@,
                n == orig.len(),
                self.plugins@.len() == n,
                0 <= i <= n,
                run_pre_edit(orig.take(i as int), q, itm0) == (PreEditFold {
                    denied: None,
                    modified,
                    itm: cur@,
                    states: self.plugins@.take(i as int),
                }),
                forall|j: int| i <= j < n ==> self.plugins@[j] == orig[j],
            decreases n - i,
        {
            let res = self.plugins[i].item_pre_edit_hook(
                api,
                hndl,
                user,
                collection,
                old_itm,
                &cur,
                action,
                merge,
            );
            let ghost before = self.plugins@;
            proof {
                assert(orig.take(i + 1) =~= orig.take(i as int) + seq![orig[i as int]]);
                lemma_run_pre_edit_concat(orig.take(i as int), seq![orig[i as int]], q, itm0);
                assert(seq![orig[i as int]].skip(1) =~= Seq::<P>::empty());
                reveal_with_fuel(run_pre_edit, 3);
            }
            match res {
                ProcessResult::Deny(reason) => {
                    proof {
                        assert(orig =~= orig.take(i + 1) + orig.skip(i + 1));
                        lemma_run_pre_edit_concat(orig.take(i + 1), orig.skip(i + 1), q, itm0);
                        let fold = run_pre_edit(orig, q, itm0);
                        assert(fold.denied == Some(reason@));
                        assert(fold.states =~= self.plugins@.take(i as int) + (seq![
                            self.plugins@[i as int],
                        ] + orig.skip(i + 1)));
                        assert(fold.states =~= self.plugins@);
                    }
                    return ProcessResult::Deny(reason);
                },
                ProcessResult::AllowUnchanged => {
                    proof {
                        assert(self.plugins@.take(i + 1) =~= self.plugins@.take(i as int) + seq![
                            self.plugins@[i as int],
                        ]);
                    }
                },
                ProcessResult::AllowModified(it2) => {
                    cur = it2;
                    modified = true;
                    proof {
                        assert(self.plugins@.take(i + 1) =~= self.plugins@.take(i as int) + seq![
                            self.plugins@[i as int],
                        ]);
                    }
                },
            }
            i = i + 1;
        }
        proof {
            assert(orig.take(n as int) =~= orig);
            assert(self.plugins@.take(n as int) =~= self.plugins@);
        }
        if modified {
            ProcessResult::AllowModified(cur)
        } else {
            ProcessResult::AllowUnchanged
        }
    }
}


impl<P: Plugin> PluginPool<P> {
    /// Tell every registered plugin that an edit was persisted, so it can run its side effects.  Every registered plugin is invoked unconditionally, in
    /// registration order.
    pub fn item_post_edit<A: PluginApi>(&mut self, api: &A, hndl: &str, collection: &str, old_itm: &Option<Item>, id: u64, action: ActionKind)
        ensures
            final(self).plugins@ == Seq::new(
                old(self).plugins@.len(),
                |j: int| (old(self).plugins@[j]).post_edit_spec(db_view(api), hndl@, collection@, opt_item_view(*old_itm), id, action),
            ),
    {
        let ghost orig = self.plugins@;
        let n = self.plugins.len();
        let mut i: usize = 0;
        while i < n
            invariant
                orig == old(self).plugins@,
                n == orig.len(),
                self.plugins@.len() == n,
                0 <= i <= n,
                forall|j: int| 0 <= j < i ==> self.plugins@[j] == (#[trigger] orig[j]).post_edit_spec(db_view(api), hndl@, collection@, opt_item_view(*old_itm), id, action),
                forall|j: int| i <= j < n ==> self.plugins@[j] == orig[j],
            decreases n - i,
        {
            self.plugins[i].item_post_edit_hook(api, hndl, collection, old_itm, id, action);
            i = i + 1;
        }
        proof {
            assert(self.plugins@ =~= Seq::new(orig.len(), |j: int| (orig[j]).post_edit_spec(db_view(api), hndl@, collection@, opt_item_view(*old_itm), id, action)));
        }
    }
}

impl<P: Plugin> PluginPool<P> {
    /// Deliver a one-time-passcode event to every registered plugin.  Every registered plugin is invoked unconditionally, in
    /// registration order.
    pub fn call_otp<A: PluginApi>(&mut self, api: &A, hndl: &str, itm: &Item)
        ensures
            final(self).plugins@ == Seq::new(
                old(self).plugins@.len(),
                |j: int| (old(self).plugins@[j]).otp_spec(db_view(api), hndl@, itm@),
            ),
    {
        let ghost orig = self.plugins@;
        let n = self.plugins.len();
        let mut i: usize = 0;
        while i < n
            invariant
                orig == old(self).plugins@,
                n == orig.len(),
                self.plugins@.len() == n,
                0 <= i <= n,
                forall|j: int| 0 <= j < i ==> self.plugins@[j] == (#[trigger] orig[j]).otp_spec(db_view(api), hndl@, itm@),
                forall|j: int| i <= j < n ==> self.plugins@[j] == orig[j],
            decreases n - i,
        {
            self.plugins[i].call_otp_hook(api, hndl, itm);
            i = i + 1;
        }
        proof {
            assert(self.plugins@ =~= Seq::new(orig.len(), |j: int| (orig[j]).otp_spec(db_view(api), hndl@, itm@)));
        }
    }
}

impl<P: Plugin> PluginPool<P> {
    /// Deliver a periodic scheduler tick to every registered plugin.  Every registered plugin is invoked unconditionally, in
    /// registration order.
    pub fn call_periodic_job<A: PluginApi>(&mut self, api: &A, timing: &str)
        ensures
            final(self).plugins@ == Seq::new(
                old(self).plugins@.len(),
                |j: int| (old(self).plugins@[j]).periodic_spec(db_view(api), timing@),
            ),
    {
        let ghost orig = self.plugins@;
        let n = self.plugins.len();
        let mut i: usize = 0;
        while i < n
            invariant
                orig == old(self).plugins@,
                n == orig.len(),
                self.plugins@.len() == n,
                0 <= i <= n,
                forall|j: int| 0 <= j < i ==> self.plugins@[j] == (#[trigger] orig[j]).periodic_spec(db_view(api), timing@),
                forall|j: int| i <= j < n ==> self.plugins@[j] == orig[j],
            decreases n - i,
        {
            self.plugins[i].call_periodic_job_hook(api, timing);
            i = i + 1;
        }
        proof {
            assert(self.plugins@ =~= Seq::new(orig.len(), |j: int| (orig[j]).periodic_spec(db_view(api), timing@)));
        }
    }
}


/// The inputs of one listing-filter dispatch, as specifications see them.
#[verifier::ext_equal]
pub struct ListFilterQuery {
    pub db: DbView,
    pub hndl: Seq<char>,
    pub user: Option<ItemView>,
    pub collection: Seq<char>,
    pub context: Seq<char>,
}

/// One plugin's filtered listing and resulting state.
pub open spec fn list_filter_step<P: Plugin>(p: P, q: ListFilterQuery, m: Map<u64, ItemView>) -> (
    Map<u64, ItemView>,
    P,
) {
    p.list_filter_spec(q.db, q.hndl, q.user, q.collection, q.context, m)
}

/// The sequential listing filter: every plugin is invoked in registration
/// order, each seeing the listing as the previous plugins left it.
pub open spec fn run_list_filter<P: Plugin>(
    plugins: Seq<P>,
    q: ListFilterQuery,
    m: Map<u64, ItemView>,
) -> (Map<u64, ItemView>, Seq<P>)
    decreases plugins.len(),
{
    if plugins.len() == 0 {
        (m, Seq::empty())
    } else {
        let (m2, s2) = list_filter_step(plugins[0], q, m);
        let rest = run_list_filter(plugins.skip(1), q, m2);
        (rest.0, seq![s2] + rest.1)
    }
}

/// The listing filter over plugins registered in two groups: the second
/// group starts from the listing the first group left.
pub proof fn lemma_run_list_filter_concat<P: Plugin>(
    a: Seq<P>,
    b: Seq<P>,
    q: ListFilterQuery,
    m: Map<u64, ItemView>,
)
    ensures
        run_list_filter(a + b, q, m) == ({
            let fa = run_list_filter(a, q, m);
            let fb = run_list_filter(b, q, fa.0);
            (fb.0, fa.1 + fb.1)
        }),
    decreases a.len(),
{
    if a.len() == 0 {
        assert(a + b =~= b);
        assert(run_list_filter(a, q, m).1 + run_list_filter(b, q, m).1 =~= run_list_filter(
            b,
            q,
            m,
        ).1);
    } else {
        assert((a + b)[0] == a[0]);
        assert((a + b).skip(1) =~= a.skip(1) + b);
        let (m2, s2) = list_filter_step(a[0], q, m);
        lemma_run_list_filter_concat(a.skip(1), b, q, m2);
        let fa1 = run_list_filter(a.skip(1), q, m2);
        let fb = run_list_filter(b, q, fa1.0);
        assert(seq![s2] + (fa1.1 + fb.1) =~= (seq![s2] + fa1.1) + fb.1);
    }
}

/// The inputs of one storage-filter dispatch, as specifications see them.
#[verifier::ext_equal]
pub struct DbFilterQuery {
    pub db: DbView,
    pub hndl: Seq<char>,
    pub user: Option<ItemView>,
    pub collection: Seq<char>,
    pub context: Seq<char>,
    pub filter_type: Seq<char>,
}

/// One plugin's storage-filter fragment and resulting state.
pub open spec fn db_filter_step<P: Plugin>(p: P, q: DbFilterQuery) -> (Seq<char>, P) {
    p.db_filter_spec(q.db, q.hndl, q.user, q.collection, q.context, q.filter_type)
}

/// Storage-filter dispatch: every plugin contributes a fragment, in
/// registration order, and the aggregate is their concatenation; a plugin
/// with nothing to contribute returns the empty fragment.
pub open spec fn run_db_filter<P: Plugin>(plugins: Seq<P>, q: DbFilterQuery) -> (Seq<char>, Seq<P>)
    decreases plugins.len(),
{
    if plugins.len() == 0 {
        (Seq::empty(), Seq::empty())
    } else {
        let (frag, s2) = db_filter_step(plugins[0], q);
        let rest = run_db_filter(plugins.skip(1), q);
        (frag + rest.0, seq![s2] + rest.1)
    }
}

/// Storage-filter dispatch over plugins registered in two groups
/// concatenates the groups' aggregates.
pub proof fn lemma_run_db_filter_concat<P: Plugin>(a: Seq<P>, b: Seq<P>, q: DbFilterQuery)
    ensures
        run_db_filter(a + b, q).0 == run_db_filter(a, q).0 + run_db_filter(b, q).0,
        run_db_filter(a + b, q).1 == run_db_filter(a, q).1 + run_db_filter(b, q).1,
    decreases a.len(),
{
    if a.len() == 0 {
        assert(a + b =~= b);
        assert(run_db_filter(a, q).0 + run_db_filter(b, q).0 =~= run_db_filter(b, q).0);
        assert(run_db_filter(a, q).1 + run_db_filter(b, q).1 =~= run_db_filter(b, q).1);
    } else {
        assert((a + b)[0] == a[0]);
        assert((a + b).skip(1) =~= a.skip(1) + b);
        let (frag, s2) = db_filter_step(a[0], q);
        lemma_run_db_filter_concat(a.skip(1), b, q);
        assert(frag + (run_db_filter(a.skip(1), q).0 + run_db_filter(b, q).0) =~= (frag
            + run_db_filter(a.skip(1), q).0) + run_db_filter(b, q).0);
        assert(seq![s2] + (run_db_filter(a.skip(1), q).1 + run_db_filter(b, q).1) =~= (seq![s2]
            + run_db_filter(a.skip(1), q).1) + run_db_filter(b, q).1);
    }
}

/// The inputs of one collection-read dispatch, as specifications see them.
#[verifier::ext_equal]
pub struct CollectionReadQuery {
    pub db: DbView,
    pub hndl: Seq<char>,
    pub collection: Seq<char>,
}

/// One plugin's continue flag, record and resulting state.
pub open spec fn collection_read_step<P: Plugin>(p: P, q: CollectionReadQuery, itm: ItemView) -> (
    bool,
    ItemView,
    P,
) {
    p.collection_read_spec(q.db, q.hndl, q.collection, itm)
}

/// Collection-read dispatch: plugins see and may rewrite the record in
/// registration order; the first plugin answering stop ends the pass and
/// the plugins after it are not invoked.
pub open spec fn run_collection_read<P: Plugin>(
    plugins: Seq<P>,
    q: CollectionReadQuery,
    itm: ItemView,
) -> (bool, ItemView, Seq<P>)
    decreases plugins.len(),
{
    if plugins.len() == 0 {
        (true, itm, Seq::empty())
    } else {
        let (c, it2, s2) = collection_read_step(plugins[0], q, itm);
        if !c {
            (false, it2, seq![s2] + plugins.skip(1))
        } else {
            let rest = run_collection_read(plugins.skip(1), q, it2);
            (rest.0, rest.1, seq![s2] + rest.2)
        }
    }
}

/// Collection-read dispatch over plugins registered in two groups: the
/// second group is reached only if the first group's plugins all continue,
/// and then sees the record as the first group left it.
pub proof fn lemma_run_collection_read_concat<P: Plugin>(
    a: Seq<P>,
    b: Seq<P>,
    q: CollectionReadQuery,
    itm: ItemView,
)
    ensures
        run_collection_read(a + b, q, itm) == ({
            let fa = run_collection_read(a, q, itm);
            if !fa.0 {
                (false, fa.1, fa.2 + b)
            } else {
                let fb = run_collection_read(b, q, fa.1);
                (fb.0, fb.1, fa.2 + fb.2)
            }
        }),
    decreases a.len(),
{
    if a.len() == 0 {
        assert(a + b =~= b);
        assert(run_collection_read(a, q, itm).2 + run_collection_read(b, q, itm).2
            =~= run_collection_read(b, q, itm).2);
    } else {
        assert((a + b)[0] == a[0]);
        assert((a + b).skip(1) =~= a.skip(1) + b);
        let (c, it2, s2) = collection_read_step(a[0], q, itm);
        if !c {
            assert(seq![s2] + (a.skip(1) + b) =~= (seq![s2] + a.skip(1)) + b);
        } else {
            lemma_run_collection_read_concat(a.skip(1), b, q, it2);
            let fa1 = run_collection_read(a.skip(1), q, it2);
            if !fa1.0 {
                assert(seq![s2] + (fa1.2 + b) =~= (seq![s2] + fa1.2) + b);
            } else {
                let fb = run_collection_read(b, q, fa1.1);
                assert(seq![s2] + (fa1.2 + fb.2) =~= (seq![s2] + fa1.2) + fb.2);
            }
        }
    }
}


impl<P: Plugin> PluginPool<P> {
    /// Let every registered plugin rewrite a fetched listing before it is
    /// returned to the caller; each plugin sees the listing as the
    /// previous plugins left it.
    pub fn item_list_filter<A: PluginApi>(
        &mut self,
        api: &A,
        hndl: &str,
        user: &Option<Item>,
        collection: &str,
        context: &str,
        map: &mut HashMap<u64, Item>,
    )
        ensures
            ({
                let q = ListFilterQuery {
                    db: db_view(api),
                    hndl: hndl@,
                    user: opt_item_view(*user),
                    collection: collection@,
                    context: context@,
                };
                let run = run_list_filter(
                    old(self).plugins@,
                    q,
                    old(map)@.map_values(|it: Item| it@),
                );
                final(map)@.map_values(|it: Item| it@) == run.0 && final(self).plugins@ == run.1
            }),
    {
        let ghost q = ListFilterQuery {
            db: db_view(api),
            hndl: hndl@,
            user: opt_item_view(*user),
            collection: collection@,
            context: context@,
        };
        let ghost orig = self.plugins@;
        let ghost m0 = map@.map_values(|it: Item| it@);
        let n = self.plugins.len();
        let mut i: usize = 0;
        proof {
            assert(orig.take(0) =~= Seq::<P>::empty());
            assert(self.plugins@.take(0) =~= Seq::<P>::empty());
        }
        while i < n
            invariant
                q == (ListFilterQuery {
                    db: db_view(api),
                    hndl: hndl@,
                    user: opt_item_view(*user),
                    collection: collection@,
                    context: context@,
                }),
                m0 == old(map)@.map_values(|it: Item| it@),
                orig == old(self).plugins@,
                n == orig.len(),
                self.plugins@.len() == n,
                0 <= i <= n,
                run_list_filter(orig.take(i as int), q, m0) == (
                    map@.map_values(|it: Item| it@),
                    self.plugins@.take(i as int),
                ),
                forall|j: int| i <= j < n ==> self.plugins@[j] == orig[j],
            decreases n - i,
        {
            self.plugins[i].item_list_filter_hook(api, hndl, user, collection, context, map);
            proof {
                assert(orig.take(i + 1) =~= orig.take(i as int) + seq![orig[i as int]]);
                lemma_run_list_filter_concat(
                    orig.take(i as int),
                    seq![orig[i as int]],
                    q,
                    m0,
                );
                assert(seq![orig[i as int]].skip(1) =~= Seq::<P>::empty());
                reveal_with_fuel(run_list_filter, 3);
                assert(self.plugins@.take(i + 1) =~= self.plugins@.take(i as int) + seq![
                    self.plugins@[i as int],
                ]);
            }
            i = i + 1;
        }
        proof {
            assert(orig.take(n as int) =~= orig);
            assert(self.plugins@.take(n as int) =~= self.plugins@);
        }
    }
}

impl<P: Plugin> PluginPool<P> {
    /// Collect a storage-level filter expression: every registered plugin
    /// contributes a fragment in registration order, and the aggregate is
    /// their concatenation.
    pub fn item_list_db_filter<A: PluginApi>(
        &mut self,
        api: &A,
        hndl: &str,
        user: &Option<Item>,
        collection: &str,
        context: &str,
        filter_type: &str,
    ) -> (r: String)
        ensures
            ({
                let q = DbFilterQuery {
                    db: db_view(api),
                    hndl: hndl@,
                    user: opt_item_view(*user),
                    collection: collection@,
                    context: context@,
                    filter_type: filter_type@,
                };
                r@ == run_db_filter(old(self).plugins@, q).0 && final(self).plugins@
                    == run_db_filter(old(self).plugins@, q).1
            }),
    {
        let ghost q = DbFilterQuery {
            db: db_view(api),
            hndl: hndl@,
            user: opt_item_view(*user),
            collection: collection@,
            context: context@,
            filter_type: filter_type@,
        };
        let ghost orig = self.plugins@;
        let mut acc = String::new();
        let n = self.plugins.len();
        let mut i: usize = 0;
        proof {
            assert(orig.take(0) =~= Seq::<P>::empty());
            assert(self.plugins@.take(0) =~= Seq::<P>::empty());
            assert(acc@ =~= run_db_filter(orig.take(0), q).0);
        }
        while i < n
            invariant
                q == (DbFilterQuery {
                    db: db_view(api),
                    hndl: hndl@,
                    user: opt_item_view(*user),
                    collection: collection@,
                    context: context@,
                    filter_type: filter_type@,
                }),
                orig == old(self).plugins@,
                n == orig.len(),
                self.plugins@.len() == n,
                0 <= i <= n,
                acc@ == run_db_filter(orig.take(i as int), q).0,
                self.plugins@.take(i as int) == run_db_filter(orig.take(i as int), q).1,
                forall|j: int| i <= j < n ==> self.plugins@[j] == orig[j],
            decreases n - i,
        {
            let frag = self.plugins[i].item_list_db_filter_hook(
                api,
                hndl,
                user,
                collection,
                context,
                filter_type,
            );
            acc.append(frag.as_str());
            proof {
                assert(orig.take(i + 1) =~= orig.take(i as int) + seq![orig[i as int]]);
                lemma_run_db_filter_concat(orig.take(i as int), seq![orig[i as int]], q);
                assert(seq![orig[i as int]].skip(1) =~= Seq::<P>::empty());
                reveal_with_fuel(run_db_filter, 3);
                assert(db_filter_step(orig[i as int], q).0 + Seq::<char>::empty()
                    =~= db_filter_step(orig[i as int], q).0);
                assert(seq![db_filter_step(orig[i as int], q).1] + Seq::<P>::empty() =~= seq![
                    db_filter_step(orig[i as int], q).1,
                ]);
                assert(self.plugins@.take(i + 1) =~= self.plugins@.take(i as int) + seq![
                    self.plugins@[i as int],
                ]);
            }
            i = i + 1;
        }
        proof {
            assert(orig.take(n as int) =~= orig);
            assert(self.plugins@.take(n as int) =~= self.plugins@);
        }
        acc
    }
}

impl<P: Plugin> PluginPool<P> {
    /// Show a record about to be returned from a read path to every
    /// registered plugin, each seeing it as the previous plugins left it;
    /// the first plugin answering stop ends the pass and the plugins
    /// after it are not invoked.
    pub fn collection_read<A: PluginApi>(
        &mut self,
        api: &A,
        hndl: &str,
        collection: &str,
        itm: &mut Item,
    ) -> (r: bool)
        ensures
            ({
                let q = CollectionReadQuery {
                    db: db_view(api),
                    hndl: hndl@,
                    collection: collection@,
                };
                let run = run_collection_read(old(self).plugins@, q, old(itm)@);
                r == run.0 && final(itm)@ == run.1 && final(self).plugins@ == run.2
            }),
    {
        let ghost q = CollectionReadQuery {
            db: db_view(api),
            hndl: hndl@,
            collection: collection@,
        };
        let ghost orig = self.plugins@;
        let ghost itm0 = itm@;
        let n = self.plugins.len();
        let mut i: usize = 0;
        proof {
            assert(orig.take(0) =~= Seq::<P>::empty());
            assert(self.plugins@.take(0) =~= Seq::<P>::empty());
        }
        while i < n
            invariant
                q == (CollectionReadQuery {
                    db: db_view(api),
                    hndl: hndl@,
                    collection: collection@,
                }),
                itm0 == old(itm)@,
                orig == old(self).plugins@,
                n == orig.len(),
                self.plugins@.len() == n,
                0 <= i <= n,
                run_collection_read(orig.take(i as int), q, itm0) == (
                    true,
                    itm@,
                    self.plugins@.take(i as int),
                ),
                forall|j: int| i <= j < n ==> self.plugins@[j] == orig[j],
            decreases n - i,
        {
            let cont = self.plugins[i].collection_read_hook(api, hndl, collection, itm);
            proof {
                assert(orig.take(i + 1) =~= orig.take(i as int) + seq![orig[i as int]]);
                lemma_run_collection_read_concat(
                    orig.take(i as int),
                    seq![orig[i as int]],
                    q,
                    itm0,
                );
                assert(seq![orig[i as int]].skip(1) =~= Seq::<P>::empty());
                reveal_with_fuel(run_collection_read, 3);
            }
            if !cont {
                proof {
                    assert(orig =~= orig.take(i + 1) + orig.skip(i + 1));
                    lemma_run_collection_read_concat(orig.take(i + 1), orig.skip(i + 1), q, itm0);
                    let run = run_collection_read(orig, q, itm0);
                    assert(run.2 =~= self.plugins@.take(i as int) + (seq![
                        self.plugins@[i as int],
                    ] + orig.skip(i + 1)));
                    assert(run.2 =~= self.plugins@);
                }
                return false;
            }
            proof {
                assert(self.plugins@.take(i + 1) =~= self.plugins@.take(i as int) + seq![
                    self.plugins@[i as int],
                ]);
            }
            i = i + 1;
        }
        proof {
            assert(orig.take(n as int) =~= orig);
            assert(self.plugins@.take(n as int) =~= self.plugins@);
        }
        true
    }
}


/// The outcome of one record edit processed through the registry: the
/// edit was persisted under the given identifier, or it was rejected by a
/// plugin with the given reason and nothing was persisted.
#[derive(Debug, PartialEq)]
pub enum EditOutcome {
    Saved(u64),
    Rejected(String),
}

/// Specification view of an `EditOutcome`.
pub enum EditOutcomeView {
    Saved(u64),
    Rejected(Seq<char>),
}

impl View for EditOutcome {
    type V = EditOutcomeView;

    open spec fn view(&self) -> EditOutcomeView {
        match self {
            EditOutcome::Saved(id) => EditOutcomeView::Saved(*id),
            EditOutcome::Rejected(reason) => EditOutcomeView::Rejected(reason@),
        }
    }
}

impl<P: Plugin> PluginPool<P> {
    /// Process one record edit end to end: consult every plugin's
    /// pre-edit hook under the sequential fold; if any plugin denies,
    /// reject the edit, leave the host untouched and invoke no post-edit
    /// hook; otherwise persist the folded record — removing it on a
    /// delete, writing it otherwise — and only then tell every plugin's
    /// post-edit hook, which sees the store as persisted.
    pub fn process_edit<A: PluginApi>(
        &mut self,
        api: &mut A,
        hndl: &str,
        user: &Option<Item>,
        collection: &str,
        old_itm: &Option<Item>,
        itm: &Item,
        action: ActionKind,
        merge: bool,
    ) -> (r: EditOutcome)
        ensures
            ({
                let q = PreEditQuery {
                    db: db_view(old(api)),
                    hndl: hndl@,
                    user: opt_item_view(*user),
                    collection: collection@,
                    old_itm: opt_item_view(*old_itm),
                    action,
                    merge,
                };
                let fold = run_pre_edit(old(self).plugins@, q, itm@);
                match fold.denied {
                    Some(reason) => {
                        &&& r@ == EditOutcomeView::Rejected(reason)
                        &&& final(self).plugins@ == fold.states
                        &&& *final(api) == *old(api)
                    },
                    None => {
                        let stored = if fold.modified {
                            fold.itm
                        } else {
                            itm@
                        };
                        &&& r@ == EditOutcomeView::Saved(stored.id)
                        &&& (if action == ActionKind::Delete {
                            final(api).db_at(collection@) == old(api).db_at(collection@).remove(
                                stored.id,
                            )
                        } else {
                            final(api).db_at(collection@) == old(api).db_at(collection@).insert(
                                stored.id,
                                merged_view(old(api).db_at(collection@), stored, merge),
                            )
                        })
                        &&& forall|c: Seq<char>|
                            c != collection@ ==> final(api).db_at(c) == old(api).db_at(c)
                        &&& final(api).settings_view() == old(api).settings_view()
                        &&& final(api).public_url_view() == old(api).public_url_view()
                        &&& forall|k: Seq<char>| final(api).state_at(k) == old(api).state_at(k)
                        &&& final(api).emails() == old(api).emails()
                        &&& final(api).calendar() == old(api).calendar()
                        &&& final(self).plugins@ == Seq::new(
                            fold.states.len(),
                            |j: int| fold.states[j].post_edit_spec(
                                db_view(final(api)),
                                hndl@,
                                collection@,
                                opt_item_view(*old_itm),
                                stored.id,
                                action,
                            ),
                        )
                    },
                }
            }),
    {
        let pre = self.item_pre_edit(&*api, hndl, user, collection, old_itm, itm, action, merge);
        let stored: Item = match pre {
            ProcessResult::Deny(reason) => {
                return EditOutcome::Rejected(reason);
            },
            ProcessResult::AllowUnchanged => itm.clone(),
            ProcessResult::AllowModified(it2) => it2,
        };
        let sid = stored.id;
        if action == ActionKind::Delete {
            let _removed = api.db_del_item(collection, sid);
        } else {
            api.db_set_item(collection, &stored, merge);
        }
        self.item_post_edit(&*api, hndl, collection, old_itm, sid, action);
        EditOutcome::Saved(sid)
    }
}

/// Writing a record with a full replace and then reading it back by its
/// identifier yields a record equal to the one written, on any host.
pub fn set_then_get<A: PluginApi>(api: &mut A, collection: &str, itm: &Item) -> (r: Option<Item>)
    ensures
        ({
            match r {
                Some(it) => it@ == itm@,
                None => false,
            }
        }),
{
    api.db_set_item(collection, itm, false);
    api.db_get_item(collection, itm.id)
}

} // verus!
