//! The plugin registry and the decision half of the loading protocol.
//!
//! The registry (`PluginPool`) owns every registered plugin and preserves
//! registration order.  Discovery selects directory entries by a fixed
//! file-name prefix; each selected module is then loaded and its exported
//! entry point invoked by unverified host code, which reports one
//! `LoadOutcome` per attempt.  Folding those outcomes into the pool —
//! appending every registered instance in order and skipping every failed
//! module — is verified here; a failed module never aborts loading.
use vstd::prelude::*;

use crate::api::Plugin;
use crate::api::PluginPoolApi;
use crate::items::str_eq;

verus! {

/// The ordered collection of loaded plugin instances.
pub struct PluginPool<P> {
    pub plugins: Vec<P>,
}

impl<P> PluginPool<P> {
    /// An empty pool.
    pub fn new() -> (r: Self)
        ensures
            r.plugins@ == Seq::<P>::empty(),
    {
        PluginPool { plugins: Vec::new() }
    }
}

impl<P> PluginPoolApi<P> for PluginPool<P> {
    open spec fn registered(&self) -> Seq<P> {
        self.plugins@
    }

    fn register(&mut self, plugin: P) {
        self.plugins.push(plugin);
    }
}

/// The file-name prefix that marks a directory entry as a plugin module
/// for this host.
pub open spec fn spec_plugin_prefix() -> Seq<char> {
    "libisabelle_plugin_"@
}

/// Whether a file name follows the plugin module naming convention.
pub open spec fn spec_is_plugin_file(name: Seq<char>) -> bool {
    name.len() >= spec_plugin_prefix().len() && name.subrange(
        0,
        spec_plugin_prefix().len() as int,
    ) == spec_plugin_prefix()
}

/// Whether a directory entry's file name marks it as a plugin module.
pub fn is_plugin_file_name(name: &str) -> (r: bool)
    ensures
        r == spec_is_plugin_file(name@),
{
    let prefix = "libisabelle_plugin_";
    proof {
        reveal_strlit("libisabelle_plugin_");
    }
    let plen = prefix.unicode_len();
    let nlen = name.unicode_len();
    if nlen < plen {
        return false;
    }
    let head = name.substring_char(0, plen);
    str_eq(head, prefix)
}

/// The naming-convention test as a predicate value.
pub open spec fn plugin_file_pred() -> spec_fn(Seq<char>) -> bool {
    |n: Seq<char>| spec_is_plugin_file(n)
}

/// The file names a directory scan selects for loading, in scan order.
pub open spec fn spec_selected(names: Seq<Seq<char>>) -> Seq<Seq<char>> {
    names.filter(plugin_file_pred())
}

/// Filtering a sequence extended by one element keeps the element exactly
/// when it satisfies the predicate.
proof fn lemma_filter_push<A>(s: Seq<A>, pred: spec_fn(A) -> bool, x: A)
    ensures
        s.push(x).filter(pred) == if pred(x) {
            s.filter(pred).push(x)
        } else {
            s.filter(pred)
        },
{
    reveal(Seq::filter);
    assert(s.push(x).drop_last() =~= s);
    assert(s.push(x).last() == x);
}

/// Select the directory entries whose names follow the plugin module
/// naming convention, keeping scan order.
pub fn select_plugin_files(names: &Vec<String>) -> (r: Vec<String>)
    ensures
        r@.map_values(|s: String| s@) == spec_selected(names@.map_values(|s: String| s@)),
{
    let ghost pred = plugin_file_pred();
    let ghost all = names@.map_values(|s: String| s@);
    let mut r: Vec<String> = Vec::new();
    let n = names.len();
    let mut i: usize = 0;
    proof {
        reveal(Seq::filter);
        assert(all.take(0) =~= Seq::<Seq<char>>::empty());
        assert(r@.map_values(|s: String| s@) =~= all.take(0).filter(pred));
    }
    while i < n
        invariant
            n == names.len(),
            0 <= i <= n,
            pred == plugin_file_pred(),
            all == names@.map_values(|s: String| s@),
            r@.map_values(|s: String| s@) == all.take(i as int).filter(pred),
        decreases n - i,
    {
        let keep = is_plugin_file_name(names[i].as_str());
        proof {
            assert(all[i as int] == names@[i as int]@);
            assert(all.take(i + 1) =~= all.take(i as int).push(all[i as int]));
            lemma_filter_push(all.take(i as int), pred, all[i as int]);
        }
        if keep {
            r.push(names[i].clone());
            proof {
                assert(pred(all[i as int]));
                assert(r@.map_values(|s: String| s@) =~= all.take(i as int).filter(pred).push(
                    all[i as int],
                ));
            }
        } else {
            proof {
                assert(!pred(all[i as int]));
            }
        }
        i = i + 1;
    }
    proof {
        assert(all.take(n as int) =~= all);
    }
    r
}

/// What one attempt to load a selected module produced: the plugin
/// instances its entry point registered, a module that could not be
/// loaded, or a module without the expected entry point.  The two failure
/// outcomes carry the reported error text; both are skipped.
pub enum LoadOutcome<P> {
    Loaded(Vec<P>),
    LoadFailed(String),
    MissingEntryPoint(String),
}

/// The plugins that a sequence of load outcomes registers, in discovery
/// order; failed modules contribute nothing.
pub open spec fn registered_of<P>(outcomes: Seq<LoadOutcome<P>>) -> Seq<P>
    decreases outcomes.len(),
{
    if outcomes.len() == 0 {
        Seq::empty()
    } else {
        match outcomes[0] {
            LoadOutcome::Loaded(ps) => ps@ + registered_of(outcomes.skip(1)),
            LoadOutcome::LoadFailed(_) => registered_of(outcomes.skip(1)),
            LoadOutcome::MissingEntryPoint(_) => registered_of(outcomes.skip(1)),
        }
    }
}

/// Appending one outcome appends exactly the plugins it registered.
pub proof fn lemma_registered_of_push<P>(outcomes: Seq<LoadOutcome<P>>, oc: LoadOutcome<P>)
    ensures
        registered_of(outcomes.push(oc)) == registered_of(outcomes) + (match oc {
            LoadOutcome::Loaded(ps) => ps@,
            LoadOutcome::LoadFailed(_) => Seq::<P>::empty(),
            LoadOutcome::MissingEntryPoint(_) => Seq::<P>::empty(),
        }),
    decreases outcomes.len(),
{
    let added = match oc {
        LoadOutcome::Loaded(ps) => ps@,
        LoadOutcome::LoadFailed(_) => Seq::<P>::empty(),
        LoadOutcome::MissingEntryPoint(_) => Seq::<P>::empty(),
    };
    if outcomes.len() == 0 {
        assert(outcomes.push(oc)[0] == oc);
        assert(outcomes.push(oc).skip(1) =~= Seq::<LoadOutcome<P>>::empty());
        assert(registered_of(Seq::<LoadOutcome<P>>::empty()) =~= Seq::<P>::empty());
        assert(registered_of(outcomes.push(oc)) =~= registered_of(outcomes) + added);
    } else {
        assert(outcomes.push(oc).skip(1) =~= outcomes.skip(1).push(oc));
        lemma_registered_of_push(outcomes.skip(1), oc);
        assert(outcomes.push(oc)[0] == outcomes[0]);
        match outcomes[0] {
            LoadOutcome::Loaded(ps) => {
                assert(registered_of(outcomes.push(oc)) =~= registered_of(outcomes) + added);
            },
            LoadOutcome::LoadFailed(_) => {},
            LoadOutcome::MissingEntryPoint(_) => {},
        }
    }
}

impl<P> PluginPool<P> {
    /// Fold the outcomes of loading every selected module into the pool:
    /// every plugin a module registered is appended in discovery order,
    /// and a module that failed to load or lacked its entry point is
    /// skipped without aborting.
    pub fn load_plugins(&mut self, outcomes: Vec<LoadOutcome<P>>)
        ensures
            final(self).plugins@ == old(self).plugins@ + registered_of(outcomes@),
    {
        let ghost orig = outcomes@;
        let mut outcomes = outcomes;
        let ghost done: int = 0;
        proof {
            assert(orig.take(0) =~= Seq::<LoadOutcome<P>>::empty());
            assert(self.plugins@ =~= old(self).plugins@ + registered_of(orig.take(0)));
        }
        while outcomes.len() > 0
            invariant
                0 <= done <= orig.len(),
                outcomes@ == orig.skip(done),
                self.plugins@ == old(self).plugins@ + registered_of(orig.take(done)),
            decreases outcomes@.len(),
        {
            let oc = outcomes.remove(0);
            proof {
                assert(oc == orig[done]);
                assert(outcomes@ =~= orig.skip(done + 1));
                assert(orig.take(done + 1) =~= orig.take(done).push(oc));
                lemma_registered_of_push(orig.take(done), oc);
            }
            match oc {
                LoadOutcome::Loaded(ps) => {
                    let mut ps = ps;
                    self.plugins.append(&mut ps);
                },
                LoadOutcome::LoadFailed(_) => {},
                LoadOutcome::MissingEntryPoint(_) => {},
            }
            proof {
                done = done + 1;
            }
        }
        proof {
            assert(orig.take(orig.len() as int) =~= orig);
        }
    }

    /// Invoke the liveness ping on every registered plugin, in
    /// registration order.
    pub fn ping_plugins(&mut self)
        where P: Plugin
        ensures
            final(self).plugins@ == old(self).plugins@.map_values(|p: P| p.ping_spec()),
    {
        let n = self.plugins.len();
        let mut i: usize = 0;
        while i < n
            invariant
                n == old(self).plugins@.len(),
                self.plugins@.len() == n,
                0 <= i <= n,
                forall|j: int| 0 <= j < i ==> self.plugins@[j] == (#[trigger] old(
                    self,
                ).plugins@[j]).ping_spec(),
                forall|j: int| i <= j < n ==> self.plugins@[j] == old(self).plugins@[j],
            decreases n - i,
        {
            self.plugins[i].ping_test();
            i = i + 1;
        }
        proof {
            assert(self.plugins@ =~= old(self).plugins@.map_values(|p: P| p.ping_spec()));
        }
    }
}

} // verus!
