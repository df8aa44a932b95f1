//! A scripted plugin: a concrete `Plugin` whose behaviour at each hook is
//! driven by its fields.
//!
//! One instance can vote on authorization, claim one route with a fixed
//! reply, decide pre-edits — allowing, rewriting one field, denying
//! outright, or denying once a collection holds too many records — drop
//! one entry from listings, contribute a storage-filter fragment, and
//! count the hook calls that carry no result.  A freshly built instance
//! gives every hook its neutral default.
use vstd::prelude::*;

use crate::api::DbView;
use crate::api::Plugin;
use crate::api::PluginApi;
use crate::api::RouteKind;
use crate::api::WebResponse;
use crate::api::WebResponseView;
use crate::api::db_view;
use crate::items::ActionKind;
use crate::items::FieldValue;
use crate::items::Item;
use crate::items::ItemView;
use crate::items::ProcessResult;
use crate::items::ProcessResultView;
use crate::items::str_eq;
use std::collections::HashMap;

verus! {

/// What a scripted plugin decides before an edit is persisted.
pub enum PreEditScript {
    /// Allow the edit untouched.
    AllowUnchanged,
    /// Allow the edit with the named field set to the given value.
    SetField(String, FieldValue),
    /// Deny every edit with this reason.
    Deny(String),
    /// Deny with this reason once the collection under edit already
    /// holds at least this many records.
    QuotaLimit(u64, String),
    /// Allow only when the named field holds the given value; deny with
    /// this reason otherwise.
    DenyUnlessField(String, FieldValue, String),
}

/// A plugin whose hook behaviour is driven by its fields; counters record
/// how often the hooks without a result were invoked.
pub struct ScriptedPlugin {
    pub auth_vote: bool,
    pub route_query: String,
    pub route_reply: WebResponse,
    pub pre_edit: PreEditScript,
    pub db_filter: String,
    pub remove_id: Option<u64>,
    pub read_continue: bool,
    pub pings: u64,
    pub pre_edits: u64,
    pub post_edits: u64,
    pub otps: u64,
    pub periodics: u64,
}

/// A counter bumped once, stopping at its maximum.
pub open spec fn bumped(x: u64) -> u64 {
    if x < u64::MAX {
        (x + 1) as u64
    } else {
        x
    }
}

impl ScriptedPlugin {
    /// A plugin that gives every hook its neutral default: deny
    /// authorization, claim no route, allow edits untouched, filter
    /// nothing, contribute nothing, let reads continue.
    pub fn neutral() -> (r: ScriptedPlugin)
        ensures
            r.auth_vote == false,
            r.route_query@ == Seq::<char>::empty(),
            r.route_reply@ is NotImplemented,
            r.pre_edit is AllowUnchanged,
            r.db_filter@ == Seq::<char>::empty(),
            r.remove_id is None,
            r.read_continue == true,
            r.pings == 0,
            r.pre_edits == 0,
            r.post_edits == 0,
            r.otps == 0,
            r.periodics == 0,
    {
        ScriptedPlugin {
            auth_vote: false,
            route_query: String::new(),
            route_reply: WebResponse::NotImplemented,
            pre_edit: PreEditScript::AllowUnchanged,
            db_filter: String::new(),
            remove_id: None,
            read_continue: true,
            pings: 0,
            pre_edits: 0,
            post_edits: 0,
            otps: 0,
            periodics: 0,
        }
    }

    /// Bump a counter, stopping at its maximum.
    fn bump(counter: u64) -> (r: u64)
        ensures
            r == bumped(counter),
    {
        if counter < u64::MAX {
            counter + 1
        } else {
            counter
        }
    }
}

impl Plugin for ScriptedPlugin {
    open spec fn ping_spec(self) -> Self {
        ScriptedPlugin { pings: bumped(self.pings), ..self }
    }

    open spec fn pre_edit_spec(
        self,
        db: DbView,
        hndl: Seq<char>,
        user: Option<ItemView>,
        collection: Seq<char>,
        old_itm: Option<ItemView>,
        itm: ItemView,
        action: ActionKind,
        merge: bool,
    ) -> (ProcessResultView, Self) {
        let stepped = ScriptedPlugin { pre_edits: bumped(self.pre_edits), ..self };
        match self.pre_edit {
            PreEditScript::AllowUnchanged => (ProcessResultView::AllowUnchanged, stepped),
            PreEditScript::SetField(name, value) => (
                ProcessResultView::AllowModified(
                    ItemView { id: itm.id, fields: itm.fields.insert(name@, value@) },
                ),
                stepped,
            ),
            PreEditScript::Deny(reason) => (ProcessResultView::Deny(reason@), stepped),
            PreEditScript::QuotaLimit(limit, reason) => if db[collection].len() >= limit {
                (ProcessResultView::Deny(reason@), stepped)
            } else {
                (ProcessResultView::AllowUnchanged, stepped)
            },
            PreEditScript::DenyUnlessField(name, value, reason) => if itm.fields.dom().contains(
                name@,
            ) && itm.fields[name@] == value@ {
                (ProcessResultView::AllowUnchanged, stepped)
            } else {
                (ProcessResultView::Deny(reason@), stepped)
            },
        }
    }

    open spec fn post_edit_spec(
        self,
        db: DbView,
        hndl: Seq<char>,
        collection: Seq<char>,
        old_itm: Option<ItemView>,
        id: u64,
        action: ActionKind,
    ) -> Self {
        ScriptedPlugin { post_edits: bumped(self.post_edits), ..self }
    }

    open spec fn auth_spec(
        self,
        db: DbView,
        hndl: Seq<char>,
        user: Option<ItemView>,
        collection: Seq<char>,
        id: u64,
        new_item: Option<ItemView>,
        del: bool,
    ) -> (bool, Self) {
        (self.auth_vote, self)
    }

    open spec fn list_filter_spec(
        self,
        db: DbView,
        hndl: Seq<char>,
        user: Option<ItemView>,
        collection: Seq<char>,
        context: Seq<char>,
        map: Map<u64, ItemView>,
    ) -> (Map<u64, ItemView>, Self) {
        match self.remove_id {
            Some(id) => (map.remove(id), self),
            None => (map, self),
        }
    }

    open spec fn db_filter_spec(
        self,
        db: DbView,
        hndl: Seq<char>,
        user: Option<ItemView>,
        collection: Seq<char>,
        context: Seq<char>,
        filter_type: Seq<char>,
    ) -> (Seq<char>, Self) {
        (self.db_filter@, self)
    }

    open spec fn route_spec(
        self,
        db: DbView,
        hndl: Seq<char>,
        user: Option<ItemView>,
        query: Seq<char>,
        itm: Option<ItemView>,
        kind: RouteKind,
    ) -> (WebResponseView, Self) {
        if query == self.route_query@ {
            (self.route_reply@, self)
        } else {
            (WebResponseView::NotImplemented, self)
        }
    }

    open spec fn collection_read_spec(
        self,
        db: DbView,
        hndl: Seq<char>,
        collection: Seq<char>,
        itm: ItemView,
    ) -> (bool, ItemView, Self) {
        (self.read_continue, itm, self)
    }

    open spec fn otp_spec(self, db: DbView, hndl: Seq<char>, itm: ItemView) -> Self {
        ScriptedPlugin { otps: bumped(self.otps), ..self }
    }

    open spec fn periodic_spec(self, db: DbView, timing: Seq<char>) -> Self {
        ScriptedPlugin { periodics: bumped(self.periodics), ..self }
    }

    fn ping_test(&mut self) {
        self.pings = Self::bump(self.pings);
    }

    fn item_pre_edit_hook<A: PluginApi>(
        &mut self,
        api: &A,
        hndl: &str,
        user: &Option<Item>,
        collection: &str,
        old_itm: &Option<Item>,
        itm: &Item,
        action: ActionKind,
        merge: bool,
    ) -> (r: ProcessResult) {
        let r = match &self.pre_edit {
            PreEditScript::AllowUnchanged => ProcessResult::AllowUnchanged,
            PreEditScript::SetField(name, value) => {
                let mut it2 = itm.clone();
                it2.set_field(name.as_str(), value.clone());
                ProcessResult::AllowModified(it2)
            },
            PreEditScript::Deny(reason) => ProcessResult::Deny(reason.clone()),
            PreEditScript::QuotaLimit(limit, reason) => {
                let listing = api.db_get_all_items(collection, "", "");
                proof {
                    assert(db_view(api)[collection@] == api.db_at(collection@));
                }
                if listing.total_count >= *limit {
                    ProcessResult::Deny(reason.clone())
                } else {
                    ProcessResult::AllowUnchanged
                }
            },
            PreEditScript::DenyUnlessField(name, value, reason) => {
                match itm.get_field(name.as_str()) {
                    Some(v) => if v.value_eq(value) {
                        ProcessResult::AllowUnchanged
                    } else {
                        ProcessResult::Deny(reason.clone())
                    },
                    None => ProcessResult::Deny(reason.clone()),
                }
            },
        };
        self.pre_edits = Self::bump(self.pre_edits);
        r
    }

    fn item_post_edit_hook<A: PluginApi>(
        &mut self,
        api: &A,
        hndl: &str,
        collection: &str,
        old_itm: &Option<Item>,
        id: u64,
        action: ActionKind,
    ) {
        self.post_edits = Self::bump(self.post_edits);
    }

    fn item_auth_hook<A: PluginApi>(
        &mut self,
        api: &A,
        hndl: &str,
        user: &Option<Item>,
        collection: &str,
        id: u64,
        new_item: &Option<Item>,
        del: bool,
    ) -> (r: bool) {
        self.auth_vote
    }

    fn item_list_filter_hook<A: PluginApi>(
        &mut self,
        api: &A,
        hndl: &str,
        user: &Option<Item>,
        collection: &str,
        context: &str,
        map: &mut HashMap<u64, Item>,
    ) {
        match self.remove_id {
            Some(id) => {
                map.remove(&id);
                proof {
                    assert(final(map)@.map_values(|it: Item| it@) =~= old(map)@.map_values(
                        |it: Item| it@,
                    ).remove(id));
                }
            },
            None => {
            },
        }
    }

    fn item_list_db_filter_hook<A: PluginApi>(
        &mut self,
        api: &A,
        hndl: &str,
        user: &Option<Item>,
        collection: &str,
        context: &str,
        filter_type: &str,
    ) -> (r: String) {
        self.db_filter.clone()
    }

    fn route_url_hook<A: PluginApi>(
        &mut self,
        api: &A,
        hndl: &str,
        user: &Option<Item>,
        query: &str,
    ) -> (r: WebResponse) {
        if str_eq(query, self.route_query.as_str()) {
            self.route_reply.clone()
        } else {
            WebResponse::NotImplemented
        }
    }

    fn route_url_post_hook<A: PluginApi>(
        &mut self,
        api: &A,
        hndl: &str,
        user: &Option<Item>,
        query: &str,
        itm: &Item,
    ) -> (r: WebResponse) {
        if str_eq(query, self.route_query.as_str()) {
            self.route_reply.clone()
        } else {
            WebResponse::NotImplemented
        }
    }

    fn route_unprotected_url_hook<A: PluginApi>(
        &mut self,
        api: &A,
        hndl: &str,
        user: &Option<Item>,
        query: &str,
    ) -> (r: WebResponse) {
        if str_eq(query, self.route_query.as_str()) {
            self.route_reply.clone()
        } else {
            WebResponse::NotImplemented
        }
    }

    fn route_unprotected_url_post_hook<A: PluginApi>(
        &mut self,
        api: &A,
        hndl: &str,
        user: &Option<Item>,
        query: &str,
        itm: &Item,
    ) -> (r: WebResponse) {
        if str_eq(query, self.route_query.as_str()) {
            self.route_reply.clone()
        } else {
            WebResponse::NotImplemented
        }
    }

    fn collection_read_hook<A: PluginApi>(
        &mut self,
        api: &A,
        hndl: &str,
        collection: &str,
        itm: &mut Item,
    ) -> (r: bool) {
        self.read_continue
    }

    fn call_otp_hook<A: PluginApi>(&mut self, api: &A, hndl: &str, itm: &Item) {
        self.otps = Self::bump(self.otps);
    }

    fn call_periodic_job_hook<A: PluginApi>(&mut self, api: &A, timing: &str) {
        self.periodics = Self::bump(self.periodics);
    }
}

} // verus!
