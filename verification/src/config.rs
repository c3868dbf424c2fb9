//! Process definitions and the persisted configuration store.
//!
//! The store keeps the list of definitions that survive a supervisor
//! restart. The surrounding binary reads and writes the backing file;
//! the list manipulation here decides exactly what is persisted.

use vstd::prelude::*;

verus! {

/// A persistent process definition, as supplied by the operator and
/// completed by the supervisor (which assigns `log_file`).
#[derive(Debug)]
pub struct ProcessConfig {
    /// Unique identifier; non-empty after trimming.
    pub id: String,
    /// Executable path or name; non-empty after trimming.
    pub command: String,
    /// Arguments, in order.
    pub args: Vec<String>,
    /// Working directory for the child; the supervisor's own when absent.
    pub working_dir: Option<String>,
    /// Respawn the child after it exits (non-periodic definitions only).
    pub auto_restart: bool,
    /// Supervisor-assigned absolute log path.
    pub log_file: String,
    /// Re-run the command at a fixed period instead of keeping it alive.
    pub periodic: bool,
    /// Period in seconds; required and positive iff `periodic`.
    pub period_seconds: Option<u64>,
}

/// The mathematical content of a `ProcessConfig`.
pub struct ConfigView {
    pub id: Seq<char>,
    pub command: Seq<char>,
    pub args: Seq<Seq<char>>,
    pub working_dir: Option<Seq<char>>,
    pub auto_restart: bool,
    pub log_file: Seq<char>,
    pub periodic: bool,
    pub period_seconds: Option<u64>,
}

impl View for ProcessConfig {
    type V = ConfigView;

    open spec fn view(&self) -> ConfigView {
        ConfigView {
            id: self.id@,
            command: self.command@,
            args: self.args.deep_view(),
            working_dir: self.working_dir.deep_view(),
            auto_restart: self.auto_restart,
            log_file: self.log_file@,
            periodic: self.periodic,
            period_seconds: self.period_seconds,
        }
    }
}

impl DeepView for ProcessConfig {
    type V = ConfigView;

    open spec fn deep_view(&self) -> ConfigView {
        self.view()
    }
}

impl Clone for ProcessConfig {
    /// A clone carries exactly the same definition.
    fn clone(&self) -> (r: Self)
        ensures
            r@ == self@,
    {
        let r = ProcessConfig {
            id: self.id.clone(),
            command: self.command.clone(),
            args: self.args.clone(),
            working_dir: match &self.working_dir {
                Option::Some(d) => Option::Some(d.clone()),
                Option::None => Option::None,
            },
            auto_restart: self.auto_restart,
            log_file: self.log_file.clone(),
            periodic: self.periodic,
            period_seconds: self.period_seconds,
        };
        proof {
            assert(r.args.deep_view() =~= self.args.deep_view());
            assert(r@ =~= self@);
        }
        r
    }
}

/// The persisted list with every definition whose id is `id` removed,
/// keeping the order of the rest.
pub open spec fn remove_id_spec(s: Seq<ConfigView>, id: Seq<char>) -> Seq<ConfigView>
    decreases s.len(),
{
    if s.len() == 0 {
        s
    } else if s[0].id == id {
        remove_id_spec(s.drop_first(), id)
    } else {
        seq![s[0]] + remove_id_spec(s.drop_first(), id)
    }
}

/// The persisted list after an upsert: every old entry with the same id
/// removed, the new definition appended.
pub open spec fn upsert_spec(s: Seq<ConfigView>, c: ConfigView) -> Seq<ConfigView> {
    remove_id_spec(s, c.id).push(c)
}

/// No entry of `s` has id `id`.
pub open spec fn no_entry_with_id(s: Seq<ConfigView>, id: Seq<char>) -> bool {
    forall|j: int| 0 <= j < s.len() ==> s[j].id != id
}

proof fn lemma_remove_id_removes(s: Seq<ConfigView>, id: Seq<char>)
    ensures
        no_entry_with_id(remove_id_spec(s, id), id),
    decreases s.len(),
{
    if s.len() > 0 {
        lemma_remove_id_removes(s.drop_first(), id);
        let rest = remove_id_spec(s.drop_first(), id);
        if s[0].id != id {
            let r = seq![s[0]] + rest;
            assert forall|j: int| 0 <= j < r.len() implies r[j].id != id by {
                if j > 0 {
                    assert(r[j] == rest[j - 1]);
                }
            }
        }
    }
}

/// Persistence round trip: after an upsert of `c`, the stored list holds
/// `c` itself as its last entry, and no other entry carries `c`'s id. A
/// later reload therefore re-creates exactly the definition that was
/// saved, field for field.
pub proof fn lemma_persistence_round_trip(s: Seq<ConfigView>, c: ConfigView)
    ensures
        upsert_spec(s, c).last() == c,
        forall|j: int| 0 <= j < upsert_spec(s, c).len() - 1 ==> upsert_spec(s, c)[j].id != c.id,
{
    lemma_remove_id_removes(s, c.id);
    let u = upsert_spec(s, c);
    assert forall|j: int| 0 <= j < u.len() - 1 implies u[j].id != c.id by {
        assert(u[j] == remove_id_spec(s, c.id)[j]);
    }
}

/// The in-memory image of the persisted definition list. All list edits
/// go through this store; the surrounding binary serializes `configs`
/// to the backing file after each edit and fills it at startup.
pub struct SafeConfigManager {
    /// The definitions that will be loaded at the next supervisor start.
    pub configs: Vec<ProcessConfig>,
}

impl SafeConfigManager {
    /// An empty store: nothing persisted yet.
    pub fn new() -> (m: Self)
        ensures
            m.configs@.len() == 0,
    {
        SafeConfigManager { configs: Vec::new() }
    }

    /// Replaces the whole list with the one loaded from disk.
    pub fn set_loaded(&mut self, configs: Vec<ProcessConfig>)
        ensures
            final(self).configs.deep_view() == configs.deep_view(),
    {
        self.configs = configs;
    }

    /// A copy of the persisted list, for reloading at startup.
    pub fn load_configs(&self) -> (v: Vec<ProcessConfig>)
        ensures
            v.deep_view() == self.configs.deep_view(),
    {
        let mut v: Vec<ProcessConfig> = Vec::new();
        let mut i: usize = 0;
        while i < self.configs.len()
            invariant
                i <= self.configs.len(),
                v.deep_view() =~= self.configs.deep_view().take(i as int),
            decreases self.configs.len() - i,
        {
            let ghost v0 = v.deep_view();
            let c = self.configs[i].clone();
            proof {
                assert(c@ == self.configs.deep_view()[i as int]);
            }
            v.push(c);
            proof {
                assert(v.deep_view() =~= v0.push(self.configs.deep_view()[i as int]));
                assert(v.deep_view() =~= self.configs.deep_view().take((i + 1) as int));
            }
            i = i + 1;
        }
        proof {
            assert(self.configs.deep_view().take(self.configs@.len() as int) =~= self
                .configs
                .deep_view());
        }
        v
    }

    /// Upserts one definition: removes any stored entry with the same id
    /// and appends the new one.
    pub fn save_process_config(&mut self, config: &ProcessConfig)
        ensures
            final(self).configs.deep_view() == upsert_spec(
                old(self).configs.deep_view(),
                config@,
            ),
    {
        let id = config.id.clone();
        self.retain_without_id(&id);
        self.configs.push(config.clone());
        proof {
            assert(self.configs.deep_view() =~= upsert_spec(
                old(self).configs.deep_view(),
                config@,
            ));
        }
    }

    /// Deletes every stored entry with the given id.
    pub fn remove_process_config(&mut self, id: &String)
        ensures
            final(self).configs.deep_view() == remove_id_spec(
                old(self).configs.deep_view(),
                id@,
            ),
    {
        self.retain_without_id(id);
    }

    fn retain_without_id(&mut self, id: &String)
        ensures
            final(self).configs.deep_view() == remove_id_spec(
                old(self).configs.deep_view(),
                id@,
            ),
    {
        let n = self.configs.len();
        let mut kept: Vec<ProcessConfig> = Vec::new();
        let mut i: usize = 0;
        proof {
            assert(self.configs.deep_view().skip(0) =~= self.configs.deep_view());
            assert(kept.deep_view() + remove_id_spec(self.configs.deep_view(), id@)
                =~= remove_id_spec(self.configs.deep_view(), id@));
        }
        while i < n
            invariant
                n == self.configs.len(),
                i <= n,
                self.configs == old(self).configs,
                remove_id_spec(self.configs.deep_view(), id@) == kept.deep_view()
                    + remove_id_spec(self.configs.deep_view().skip(i as int), id@),
            decreases n - i,
        {
            let ghost s = self.configs.deep_view();
            let ghost kept0 = kept.deep_view();
            proof {
                lemma_remove_id_step(s, id@, i as int);
                assert(s[i as int] == self.configs@[i as int]@);
            }
            if !strings_equal(&self.configs[i].id, id) {
                let c = self.configs[i].clone();
                kept.push(c);
                proof {
                    assert(kept.deep_view() =~= kept0.push(s[i as int]));
                    assert(kept0.push(s[i as int]) + remove_id_spec(s.skip(i + 1), id@) =~= kept0
                        + (seq![s[i as int]] + remove_id_spec(s.skip(i + 1), id@)));
                }
            }
            i = i + 1;
        }
        proof {
            assert(remove_id_spec(self.configs.deep_view().skip(n as int), id@)
                =~= Seq::<ConfigView>::empty());
            assert(kept.deep_view() + Seq::<ConfigView>::empty() =~= kept.deep_view());
        }
        self.configs = kept;
    }
}

/// One unfolding of `remove_id_spec` on the suffix that starts at `i`.
proof fn lemma_remove_id_step(s: Seq<ConfigView>, id: Seq<char>, i: int)
    requires
        0 <= i < s.len(),
    ensures
        s[i].id == id ==> remove_id_spec(s.skip(i), id) == remove_id_spec(s.skip(i + 1), id),
        s[i].id != id ==> remove_id_spec(s.skip(i), id) == seq![s[i]] + remove_id_spec(
            s.skip(i + 1),
            id,
        ),
{
    assert(s.skip(i).len() > 0);
    assert(s.skip(i)[0] == s[i]);
    assert(s.skip(i).drop_first() =~= s.skip(i + 1));
}

/// String equality, as a plain function usable in loops.
pub fn strings_equal(a: &String, b: &String) -> (r: bool)
    ensures
        r == (a@ == b@),
{
    *a == *b
}

} // verus!
