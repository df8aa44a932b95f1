//! The host/plugin boundary: the capability surface a plugin may call back
//! into (`PluginApi`), the set of hooks a plugin implements (`Plugin`), and
//! the registrar a loaded module pushes plugin instances onto
//! (`PluginPoolApi`).
//!
//! Every hook result is pinned to a per-plugin specification function of the
//! plugin's state and the hook's inputs, so the registry's dispatch policy
//! can be stated and proved exactly over any sequence of plugins.
use vstd::prelude::*;

use crate::items::ActionKind;
use crate::items::Item;
use crate::items::ItemView;
use crate::items::opt_item_view;
use std::collections::HashMap;

verus! {

/// Canonical web responses a route hook may produce.
#[derive(Debug, PartialEq)]
pub enum WebResponse {
    OkEmpty,
    OkData(String),
    OkFile(String, Vec<u8>),
    NotFound,
    Unauthorized,
    BadRequest,
    Forbidden,
    NotImplemented,
}

/// Specification view of a `WebResponse`.
pub enum WebResponseView {
    OkEmpty,
    OkData(Seq<char>),
    OkFile(Seq<char>, Seq<u8>),
    NotFound,
    Unauthorized,
    BadRequest,
    Forbidden,
    NotImplemented,
}

impl View for WebResponse {
    type V = WebResponseView;

    open spec fn view(&self) -> WebResponseView {
        match self {
            WebResponse::OkEmpty => WebResponseView::OkEmpty,
            WebResponse::OkData(s) => WebResponseView::OkData(s@),
            WebResponse::OkFile(name, bytes) => WebResponseView::OkFile(name@, bytes@),
            WebResponse::NotFound => WebResponseView::NotFound,
            WebResponse::Unauthorized => WebResponseView::Unauthorized,
            WebResponse::BadRequest => WebResponseView::BadRequest,
            WebResponse::Forbidden => WebResponseView::Forbidden,
            WebResponse::NotImplemented => WebResponseView::NotImplemented,
        }
    }
}

impl Clone for WebResponse {
    fn clone(&self) -> (res: Self)
        ensures
            res@ == self@,
    {
        match self {
            WebResponse::OkEmpty => WebResponse::OkEmpty,
            WebResponse::OkData(s) => WebResponse::OkData(s.clone()),
            WebResponse::OkFile(name, bytes) => {
                let mut copy: Vec<u8> = Vec::new();
                let n = bytes.len();
                let mut i: usize = 0;
                while i < n
                    invariant
                        n == bytes.len(),
                        0 <= i <= n,
                        copy@ == bytes@.take(i as int),
                    decreases n - i,
                {
                    copy.push(bytes[i]);
                    proof {
                        assert(copy@ =~= bytes@.take(i + 1));
                    }
                    i = i + 1;
                }
                proof {
                    assert(copy@ =~= bytes@);
                }
                WebResponse::OkFile(name.clone(), copy)
            },
            WebResponse::NotFound => WebResponse::NotFound,
            WebResponse::Unauthorized => WebResponse::Unauthorized,
            WebResponse::BadRequest => WebResponse::BadRequest,
            WebResponse::Forbidden => WebResponse::Forbidden,
            WebResponse::NotImplemented => WebResponse::NotImplemented,
        }
    }
}

/// Whether a response claims the route (anything but `NotImplemented`).
pub open spec fn claims_route(w: WebResponseView) -> bool {
    !(w is NotImplemented)
}

/// The database as a plugin specification sees it: every collection name
/// mapped to that collection's records by identifier.
pub type DbView = Map<Seq<char>, Map<u64, ItemView>>;

/// One outbound email the host was asked to send.
#[verifier::ext_equal]
pub struct EmailView {
    pub to: Seq<char>,
    pub subject: Seq<char>,
    pub body: Seq<char>,
}

/// One calendar synchronisation the host was asked to perform.
#[verifier::ext_equal]
pub struct CalendarEventView {
    pub add: bool,
    pub name: Seq<char>,
    pub date_time: Seq<char>,
}

/// A page listing exactly the contents of a collection: as many entries as
/// the map has, each entry a record of the map, no identifier repeated, and
/// every key of the map covered.
pub open spec fn lists_exactly(s: Seq<ItemView>, m: Map<u64, ItemView>) -> bool {
    &&& s.len() == m.len()
    &&& forall|i: int| 0 <= i < s.len() ==> m.dom().contains((#[trigger] s[i]).id) && s[i] == m[s[i].id]
    &&& forall|i: int, j: int| 0 <= i < j < s.len() ==> s[i].id != s[j].id
    &&& forall|k: u64| #[trigger] m.dom().contains(k) ==> exists|i: int| 0 <= i < s.len() && s[i].id == k
}

/// The identifiers of a collection that fall in an inclusive range.
pub open spec fn keys_in_range(m: Map<u64, ItemView>, id_min: u64, id_max: u64) -> Set<u64> {
    m.dom().filter(|k: u64| id_min <= k && k <= id_max)
}

/// How many entries a page holds once `skip` records are passed over and at
/// most `limit` are returned, out of `total` matching records.
pub open spec fn page_len(total: nat, skip: u64, limit: u64) -> nat {
    if total <= skip {
        0
    } else if total - skip <= limit {
        (total - skip) as nat
    } else {
        limit as nat
    }
}

/// A page drawn from the matching records of a collection: distinct
/// identifiers, each in the requested range and bound to its record.
pub open spec fn page_of(s: Seq<ItemView>, m: Map<u64, ItemView>, id_min: u64, id_max: u64) -> bool {
    &&& forall|i: int| 0 <= i < s.len() ==> {
        &&& id_min <= (#[trigger] s[i]).id && s[i].id <= id_max
        &&& m.dom().contains(s[i].id)
        &&& s[i] == m[s[i].id]
    }
    &&& forall|i: int, j: int| 0 <= i < j < s.len() ==> s[i].id != s[j].id
}

/// The record written by a `set_item`: the proposed record, or, under a
/// field-level merge with an existing record, the old fields overridden by
/// the proposed ones.
pub open spec fn merged_view(m: Map<u64, ItemView>, itm: ItemView, merge: bool) -> ItemView {
    if merge && m.dom().contains(itm.id) {
        ItemView { id: itm.id, fields: m[itm.id].fields.union_prefer_right(itm.fields) }
    } else {
        itm
    }
}

/// The host capability surface: the only channel through which a plugin
/// queries or affects host state.  Storage, settings, authorization
/// utilities and outbound notifications live behind it; each operation is
/// synchronous and signals failure by an absent or false result, never by
/// an error channel across the plugin boundary.
pub trait PluginApi: Sized {
    /// The records of a collection, by identifier.
    spec fn db_at(&self, collection: Seq<char>) -> Map<u64, ItemView>;

    /// The process-wide settings record.
    spec fn settings_view(&self) -> ItemView;

    /// The public base URL of the host.
    spec fn public_url_view(&self) -> Seq<char>;

    /// The per-plugin opaque state slot held under a handle.
    spec fn state_at(&self, hndl: Seq<char>) -> Option<ItemView>;

    /// Every email the host has been asked to send, oldest first.
    spec fn emails(&self) -> Seq<EmailView>;

    /// Every calendar synchronisation requested, oldest first.
    spec fn calendar(&self) -> Seq<CalendarEventView>;

    /// Whether the host considers a user to hold a role.
    spec fn check_role_spec(&self, user: Option<ItemView>, role: Seq<char>) -> bool;

    /// The password hash this host derives from a password and a salt.
    spec fn hash_spec(&self, pw: Seq<char>, salt: Seq<char>) -> Seq<char>;

    /// Whether this host accepts a password against a stored hash.
    spec fn verify_spec(&self, pw: Seq<char>, hash: Seq<char>) -> bool;

    /// A hash just derived from a password verifies against it.
    proof fn hash_verifies(&self, pw: Seq<char>, salt: Seq<char>)
        ensures
            self.verify_spec(pw, self.hash_spec(pw, salt)),
    ;

    fn db_get_all_items(&self, collection: &str, sort_key: &str, filter: &str) -> (r:
        crate::items::ListResult)
        ensures
            lists_exactly(r@.items, self.db_at(collection@)),
            r@.total_count == self.db_at(collection@).len(),
    ;

    fn db_get_items(
        &self,
        collection: &str,
        id_min: u64,
        id_max: u64,
        sort_key: &str,
        filter: &str,
        skip: u64,
        limit: u64,
    ) -> (r: crate::items::ListResult)
        ensures
            page_of(r@.items, self.db_at(collection@), id_min, id_max),
            r@.total_count == keys_in_range(self.db_at(collection@), id_min, id_max).len(),
            r@.items.len() == page_len(
                keys_in_range(self.db_at(collection@), id_min, id_max).len(),
                skip,
                limit,
            ),
    ;

    fn db_get_item(&self, collection: &str, id: u64) -> (r: Option<Item>)
        ensures
            match r {
                Some(it) => self.db_at(collection@).dom().contains(id) && it@ == self.db_at(
                    collection@,
                )[id],
                None => !self.db_at(collection@).dom().contains(id),
            },
    ;

    fn db_set_item(&mut self, collection: &str, itm: &Item, merge: bool)
        ensures
            final(self).db_at(collection@) == old(self).db_at(collection@).insert(
                itm.id,
                merged_view(old(self).db_at(collection@), itm@, merge),
            ),
            forall|c: Seq<char>| c != collection@ ==> final(self).db_at(c) == old(self).db_at(c),
            final(self).settings_view() == old(self).settings_view(),
            final(self).public_url_view() == old(self).public_url_view(),
            forall|k: Seq<char>| final(self).state_at(k) == old(self).state_at(k),
            final(self).emails() == old(self).emails(),
            final(self).calendar() == old(self).calendar(),
    ;

    fn db_del_item(&mut self, collection: &str, id: u64) -> (r: bool)
        ensures
            r == old(self).db_at(collection@).dom().contains(id),
            final(self).db_at(collection@) == old(self).db_at(collection@).remove(id),
            forall|c: Seq<char>| c != collection@ ==> final(self).db_at(c) == old(self).db_at(c),
            final(self).settings_view() == old(self).settings_view(),
            final(self).public_url_view() == old(self).public_url_view(),
            forall|k: Seq<char>| final(self).state_at(k) == old(self).state_at(k),
            final(self).emails() == old(self).emails(),
            final(self).calendar() == old(self).calendar(),
    ;

    fn globals_get_public_url(&self) -> (r: String)
        ensures
            r@ == self.public_url_view(),
    ;

    fn globals_get_settings(&self) -> (r: Item)
        ensures
            r@ == self.settings_view(),
    ;

    fn auth_check_role(&self, itm: &Option<Item>, role: &str) -> (r: bool)
        ensures
            r == self.check_role_spec(opt_item_view(*itm), role@),
    ;

    /// A fresh salt; which one is the host's choice.
    fn auth_get_new_salt(&self) -> String;

    fn auth_get_password_hash(&self, pw: &str, salt: &str) -> (r: String)
        ensures
            r@ == self.hash_spec(pw@, salt@),
    ;

    fn auth_verify_password(&self, pw: &str, pw_hash: &str) -> (r: bool)
        ensures
            r == self.verify_spec(pw@, pw_hash@),
    ;

    fn fn_send_email(&mut self, to: &str, subject: &str, body: &str)
        ensures
            final(self).emails() == old(self).emails().push(
                EmailView { to: to@, subject: subject@, body: body@ },
            ),
            forall|c: Seq<char>| final(self).db_at(c) == old(self).db_at(c),
            final(self).settings_view() == old(self).settings_view(),
            final(self).public_url_view() == old(self).public_url_view(),
            forall|k: Seq<char>| final(self).state_at(k) == old(self).state_at(k),
            final(self).calendar() == old(self).calendar(),
    ;

    /// A token for the external calendar integration; its value is the
    /// outside service's choice.
    fn fn_init_google(&self) -> String;

    fn fn_sync_with_google(&mut self, add: bool, name: String, date_time: String)
        ensures
            final(self).calendar() == old(self).calendar().push(
                CalendarEventView { add, name: name@, date_time: date_time@ },
            ),
            forall|c: Seq<char>| final(self).db_at(c) == old(self).db_at(c),
            final(self).settings_view() == old(self).settings_view(),
            final(self).public_url_view() == old(self).public_url_view(),
            forall|k: Seq<char>| final(self).state_at(k) == old(self).state_at(k),
            final(self).emails() == old(self).emails(),
    ;

    fn fn_get_state(&self, hndl: &str) -> (r: Option<Item>)
        ensures
            opt_item_view(r) == self.state_at(hndl@),
    ;

    fn fn_set_state(&mut self, hndl: &str, value: Option<Item>)
        ensures
            final(self).state_at(hndl@) == opt_item_view(value),
            forall|k: Seq<char>| k != hndl@ ==> final(self).state_at(k) == old(self).state_at(k),
            forall|c: Seq<char>| final(self).db_at(c) == old(self).db_at(c),
            final(self).settings_view() == old(self).settings_view(),
            final(self).public_url_view() == old(self).public_url_view(),
            final(self).emails() == old(self).emails(),
            final(self).calendar() == old(self).calendar(),
    ;
}

/// The database view a hook receives: every collection name mapped to the
/// collection's current contents.
pub open spec fn db_view<A: PluginApi>(api: &A) -> DbView {
    Map::new(|c: Seq<char>| true, |c: Seq<char>| api.db_at(c))
}

/// The set of hooks a plugin implements.  Each hook's executable method is
/// pinned to a specification function of the plugin's state and the hook's
/// inputs, so a registry holding any plugins can state its dispatch policy
/// exactly.  A hook a plugin has no interest in returns its neutral
/// default: allow unchanged for pre-edit, deny for authorization,
/// `NotImplemented` for routes, an empty fragment for storage filters.
pub trait Plugin: Sized {
    /// State after a liveness ping.
    spec fn ping_spec(self) -> Self;

    /// Decision and state after a pre-edit hook.
    spec fn pre_edit_spec(
        self,
        db: DbView,
        hndl: Seq<char>,
        user: Option<ItemView>,
        collection: Seq<char>,
        old_itm: Option<ItemView>,
        itm: ItemView,
        action: ActionKind,
        merge: bool,
    ) -> (crate::items::ProcessResultView, Self);

    /// State after a post-edit hook.
    spec fn post_edit_spec(
        self,
        db: DbView,
        hndl: Seq<char>,
        collection: Seq<char>,
        old_itm: Option<ItemView>,
        id: u64,
        action: ActionKind,
    ) -> Self;

    /// Vote and state after an authorization hook.
    spec fn auth_spec(
        self,
        db: DbView,
        hndl: Seq<char>,
        user: Option<ItemView>,
        collection: Seq<char>,
        id: u64,
        new_item: Option<ItemView>,
        del: bool,
    ) -> (bool, Self);

    /// Filtered listing and state after a list-filter hook.
    spec fn list_filter_spec(
        self,
        db: DbView,
        hndl: Seq<char>,
        user: Option<ItemView>,
        collection: Seq<char>,
        context: Seq<char>,
        map: Map<u64, ItemView>,
    ) -> (Map<u64, ItemView>, Self);

    /// Storage-filter fragment and state after a db-filter hook.
    spec fn db_filter_spec(
        self,
        db: DbView,
        hndl: Seq<char>,
        user: Option<ItemView>,
        collection: Seq<char>,
        context: Seq<char>,
        filter_type: Seq<char>,
    ) -> (Seq<char>, Self);

    /// Response and state after a route hook; `kind` names which of the
    /// four route hooks is being asked.
    spec fn route_spec(
        self,
        db: DbView,
        hndl: Seq<char>,
        user: Option<ItemView>,
        query: Seq<char>,
        itm: Option<ItemView>,
        kind: RouteKind,
    ) -> (WebResponseView, Self);

    /// Continue flag, record and state after a collection-read hook.
    spec fn collection_read_spec(
        self,
        db: DbView,
        hndl: Seq<char>,
        collection: Seq<char>,
        itm: ItemView,
    ) -> (bool, ItemView, Self);

    /// State after a one-time-passcode delivery event.
    spec fn otp_spec(self, db: DbView, hndl: Seq<char>, itm: ItemView) -> Self;

    /// State after a periodic scheduler tick.
    spec fn periodic_spec(self, db: DbView, timing: Seq<char>) -> Self;

    fn ping_test(&mut self)
        ensures
            *final(self) == old(self).ping_spec(),
    ;

    fn item_pre_edit_hook<A: PluginApi>(
        &mut self,
        api: &A,
        hndl: &str,
        user: &Option<Item>,
        collection: &str,
        old_itm: &Option<Item>,
        itm: &Item,
        action: ActionKind,
        merge: bool,
    ) -> (r: crate::items::ProcessResult)
        ensures
            ({
                let (rv, s2) = old(self).pre_edit_spec(
                    db_view(api),
                    hndl@,
                    opt_item_view(*user),
                    collection@,
                    opt_item_view(*old_itm),
                    itm@,
                    action,
                    merge,
                );
                r@ == rv && *final(self) == s2
            }),
    ;

    fn item_post_edit_hook<A: PluginApi>(
        &mut self,
        api: &A,
        hndl: &str,
        collection: &str,
        old_itm: &Option<Item>,
        id: u64,
        action: ActionKind,
    )
        ensures
            *final(self) == old(self).post_edit_spec(
                db_view(api),
                hndl@,
                collection@,
                opt_item_view(*old_itm),
                id,
                action,
            ),
    ;

    fn item_auth_hook<A: PluginApi>(
        &mut self,
        api: &A,
        hndl: &str,
        user: &Option<Item>,
        collection: &str,
        id: u64,
        new_item: &Option<Item>,
        del: bool,
    ) -> (r: bool)
        ensures
            ({
                let (rv, s2) = old(self).auth_spec(
                    db_view(api),
                    hndl@,
                    opt_item_view(*user),
                    collection@,
                    id,
                    opt_item_view(*new_item),
                    del,
                );
                r == rv && *final(self) == s2
            }),
    ;

    fn item_list_filter_hook<A: PluginApi>(
        &mut self,
        api: &A,
        hndl: &str,
        user: &Option<Item>,
        collection: &str,
        context: &str,
        map: &mut HashMap<u64, Item>,
    )
        ensures
            ({
                let (m2, s2) = old(self).list_filter_spec(
                    db_view(api),
                    hndl@,
                    opt_item_view(*user),
                    collection@,
                    context@,
                    old(map)@.map_values(|it: Item| it@),
                );
                final(map)@.map_values(|it: Item| it@) == m2 && *final(self) == s2
            }),
    ;

    fn item_list_db_filter_hook<A: PluginApi>(
        &mut self,
        api: &A,
        hndl: &str,
        user: &Option<Item>,
        collection: &str,
        context: &str,
        filter_type: &str,
    ) -> (r: String)
        ensures
            ({
                let (rv, s2) = old(self).db_filter_spec(
                    db_view(api),
                    hndl@,
                    opt_item_view(*user),
                    collection@,
                    context@,
                    filter_type@,
                );
                r@ == rv && *final(self) == s2
            }),
    ;

    fn route_url_hook<A: PluginApi>(
        &mut self,
        api: &A,
        hndl: &str,
        user: &Option<Item>,
        query: &str,
    ) -> (r: WebResponse)
        ensures
            ({
                let (rv, s2) = old(self).route_spec(
                    db_view(api),
                    hndl@,
                    opt_item_view(*user),
                    query@,
                    None,
                    RouteKind::Protected,
                );
                r@ == rv && *final(self) == s2
            }),
    ;

    fn route_url_post_hook<A: PluginApi>(
        &mut self,
        api: &A,
        hndl: &str,
        user: &Option<Item>,
        query: &str,
        itm: &Item,
    ) -> (r: WebResponse)
        ensures
            ({
                let (rv, s2) = old(self).route_spec(
                    db_view(api),
                    hndl@,
                    opt_item_view(*user),
                    query@,
                    Some(itm@),
                    RouteKind::ProtectedPost,
                );
                r@ == rv && *final(self) == s2
            }),
    ;

    fn route_unprotected_url_hook<A: PluginApi>(
        &mut self,
        api: &A,
        hndl: &str,
        user: &Option<Item>,
        query: &str,
    ) -> (r: WebResponse)
        ensures
            ({
                let (rv, s2) = old(self).route_spec(
                    db_view(api),
                    hndl@,
                    opt_item_view(*user),
                    query@,
                    None,
                    RouteKind::Unprotected,
                );
                r@ == rv && *final(self) == s2
            }),
    ;

    fn route_unprotected_url_post_hook<A: PluginApi>(
        &mut self,
        api: &A,
        hndl: &str,
        user: &Option<Item>,
        query: &str,
        itm: &Item,
    ) -> (r: WebResponse)
        ensures
            ({
                let (rv, s2) = old(self).route_spec(
                    db_view(api),
                    hndl@,
                    opt_item_view(*user),
                    query@,
                    Some(itm@),
                    RouteKind::UnprotectedPost,
                );
                r@ == rv && *final(self) == s2
            }),
    ;

    fn collection_read_hook<A: PluginApi>(
        &mut self,
        api: &A,
        hndl: &str,
        collection: &str,
        itm: &mut Item,
    ) -> (r: bool)
        ensures
            ({
                let (c, it2, s2) = old(self).collection_read_spec(
                    db_view(api),
                    hndl@,
                    collection@,
                    old(itm)@,
                );
                r == c && final(itm)@ == it2 && *final(self) == s2
            }),
    ;

    fn call_otp_hook<A: PluginApi>(&mut self, api: &A, hndl: &str, itm: &Item)
        ensures
            *final(self) == old(self).otp_spec(db_view(api), hndl@, itm@),
    ;

    fn call_periodic_job_hook<A: PluginApi>(&mut self, api: &A, timing: &str)
        ensures
            *final(self) == old(self).periodic_spec(db_view(api), timing@),
    ;
}

/// Which of the four route hooks a dispatch is for.
#[derive(Clone, Copy, PartialEq, Eq, Structural, Debug)]
pub enum RouteKind {
    Protected,
    ProtectedPost,
    Unprotected,
    UnprotectedPost,
}

/// The registrar a loaded module pushes constructed plugin instances onto.
pub trait PluginPoolApi<P>: Sized {
    /// The plugins registered so far, in registration order.
    spec fn registered(&self) -> Seq<P>;

    fn register(&mut self, plugin: P)
        ensures
            final(self).registered() == old(self).registered().push(plugin),
    ;
}

} // verus!
