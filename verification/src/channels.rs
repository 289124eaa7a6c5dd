//! The channel factory registry and the plan for building a channel router
//! from configuration.
use vstd::prelude::*;
use vstd::string::StringExecFns;
use crate::json::{member, members_view, opt_ref_view, opt_str, opt_u64, member_of, JsonValue};
use crate::text::{dec, dec_usize, digit, owned, str_eq, trim, trim_str};

verus! {

/// The kind of a channel adapter, by name (`telegram`, `http`, `tui`, or a
/// custom name).
#[derive(Debug, Clone)]
pub struct AdapterType {
    pub name: String,
}

impl AdapterType {
    /// The Telegram bot adapter.
    pub const TELEGRAM: &'static str = "telegram";

    /// The HTTP adapter.
    pub const HTTP: &'static str = "http";

    /// The terminal UI adapter.
    pub const TUI: &'static str = "tui";

    /// An adapter type with the given name.
    pub fn new(name: &str) -> (r: AdapterType)
        ensures
            r.name@ == name@,
    {
        AdapterType { name: owned(name) }
    }

    /// The name of the type.
    pub fn as_str(&self) -> (r: &str)
        ensures
            r@ == self.name@,
    {
        self.name.as_str()
    }

    /// Whether this is the terminal UI adapter.
    pub fn is_tui(&self) -> (r: bool)
        ensures
            r == (self.name@ == "tui"@),
    {
        str_eq(self.name.as_str(), "tui")
    }
}

/// Configuration of one channel adapter.
#[derive(Debug)]
pub struct AdapterConfig {
    /// Explicit channel id, if any.
    pub id: Option<String>,
    /// Which adapter this configures.
    pub adapter_type: AdapterType,
    /// Disabled adapters are skipped.
    pub enabled: bool,
    /// Telegram bot token.
    pub bot_token: Option<String>,
    /// Telegram chat id.
    pub chat_id: Option<String>,
    /// Chats allowed to talk to the agent.
    pub allowed_chats: Vec<String>,
    /// Senders allowed to talk to the agent.
    pub allowed_senders: Vec<String>,
    /// Adapter-specific settings by key (keys are unique in a configuration;
    /// where one occurs twice, the first counts).
    pub extra: Vec<(String, JsonValue)>,
}

/// Channel configuration: the adapters and the preferred primary channel.
#[derive(Debug)]
pub struct ChannelConfig {
    /// The id, base id or type of the channel that should be primary.
    pub primary: Option<String>,
    /// All configured adapters, in order.
    pub adapters: Vec<AdapterConfig>,
}

/// Router build mode.
#[derive(Debug, Clone, Copy, PartialEq, Eq, Structural)]
pub enum ChannelBuildMode {
    /// Build only external/headless adapters; `tui` adapters are skipped.
    Headless,
    /// Build every enabled adapter in the config.
    All,
}

/// How a registered channel type is built: by one of the built-in adapters
/// or by a custom factory.
#[derive(Debug, Clone)]
pub enum ChannelFactory<F> {
    Telegram,
    Http,
    Custom(F),
}

/// Registry of adapter factories keyed by adapter type name.
#[derive(Clone)]
pub struct ChannelFactoryRegistry<F> {
    factories: Vec<(String, ChannelFactory<F>)>,
}

// ------------------------------------------------------------------
// Specifications
// ------------------------------------------------------------------

/// The registry's entries as a map from type name to factory.
pub open spec fn entries_map<F>(es: Seq<(String, ChannelFactory<F>)>) -> Map<
    Seq<char>,
    ChannelFactory<F>,
>
    decreases es.len(),
{
    if es.len() == 0 {
        Map::empty()
    } else {
        entries_map(es.drop_last()).insert(es.last().0@, es.last().1)
    }
}

/// No type name occurs twice.
pub open spec fn unique_keys<F>(es: Seq<(String, ChannelFactory<F>)>) -> bool {
    forall|i: int, j: int| 0 <= i < es.len() && 0 <= j < es.len() && i != j ==> es[i].0@ != es[j].0@
}

impl<F> ChannelFactoryRegistry<F> {
    /// The registered factories by type name.
    pub closed spec fn view(&self) -> Map<Seq<char>, ChannelFactory<F>> {
        entries_map(self.factories@)
    }

    /// The registry's internal invariant.
    pub closed spec fn wf(&self) -> bool {
        unique_keys(self.factories@)
    }
}

/// The channel id an adapter asks for: its explicit id when that is not
/// blank (trimmed), else its type name.
pub open spec fn base_id(cfg: AdapterConfig) -> Seq<char> {
    match cfg.id {
        Some(id) => if trim(id@).len() > 0 {
            trim(id@)
        } else {
            cfg.adapter_type.name@
        },
        None => cfg.adapter_type.name@,
    }
}

/// Whether an adapter takes part in a build in the given mode.
pub open spec fn selected(cfg: AdapterConfig, mode: ChannelBuildMode) -> bool {
    cfg.enabled && !(mode == ChannelBuildMode::Headless && cfg.adapter_type.name@ == "tui"@)
}

/// Indices of the adapters that take part, in order.
pub open spec fn candidates(adapters: Seq<AdapterConfig>, mode: ChannelBuildMode) -> Seq<int>
    decreases adapters.len(),
{
    if adapters.len() == 0 {
        seq![]
    } else {
        let rest = candidates(adapters.drop_last(), mode);
        if selected(adapters.last(), mode) {
            rest.push(adapters.len() - 1)
        } else {
            rest
        }
    }
}

/// How often `x` occurs in `s`.
pub open spec fn count_of(s: Seq<Seq<char>>, x: Seq<char>) -> nat
    decreases s.len(),
{
    if s.len() == 0 {
        0
    } else {
        count_of(s.drop_last(), x) + if s.last() == x {
            1nat
        } else {
            0nat
        }
    }
}

/// The base ids of the candidates.
pub open spec fn candidate_bases(adapters: Seq<AdapterConfig>, cands: Seq<int>) -> Seq<Seq<char>> {
    cands.map_values(|i: int| base_id(adapters[i]))
}

/// The id of the `j`-th candidate: its base id the first time that base id
/// occurs, else the base id with `-n` appended for its `n`-th occurrence.
pub open spec fn assigned_id(bases: Seq<Seq<char>>, j: int) -> Seq<char> {
    let n = count_of(bases.take(j + 1), bases[j]);
    if n == 1 {
        bases[j]
    } else {
        bases[j] + "-"@ + dec(n)
    }
}

/// The primary preference: trimmed, and absent when blank.
pub open spec fn primary_pref(primary: Option<String>) -> Option<Seq<char>> {
    nonblank(primary)
}

/// Whether the candidate matches the primary preference by id, base id or type.
pub open spec fn matches_primary(
    pref: Option<Seq<char>>,
    id: Seq<char>,
    base: Seq<char>,
    ty: Seq<char>,
) -> bool {
    match pref {
        Some(p) => p == id || p == base || p == ty,
        None => false,
    }
}

/// The first candidate at or after `j` whose type has no factory (the number
/// of candidates when every type has one).
pub open spec fn first_missing<F>(
    reg: Map<Seq<char>, ChannelFactory<F>>,
    adapters: Seq<AdapterConfig>,
    cands: Seq<int>,
    j: int,
) -> int
    decreases cands.len() - j,
{
    if j >= cands.len() {
        cands.len() as int
    } else if !reg.dom().contains(adapters[cands[j]].adapter_type.name@) {
        j
    } else {
        first_missing(reg, adapters, cands, j + 1)
    }
}

/// The index of the primary channel among the first `n` candidates: the last
/// that matches the preference, or 0.
pub open spec fn primary_index(
    pref: Option<Seq<char>>,
    adapters: Seq<AdapterConfig>,
    cands: Seq<int>,
    n: int,
) -> int
    decreases n,
{
    if n <= 0 {
        0
    } else {
        let bases = candidate_bases(adapters, cands);
        let j = n - 1;
        if matches_primary(
            pref,
            assigned_id(bases, j),
            bases[j],
            adapters[cands[j]].adapter_type.name@,
        ) {
            j
        } else {
            primary_index(pref, adapters, cands, n - 1)
        }
    }
}

/// One channel to build: which adapter, under which id.
#[derive(Debug, Clone)]
pub struct PlannedChannel {
    /// Index of the adapter in the configuration.
    pub config_index: usize,
    /// The channel id it gets.
    pub id: String,
}

/// What building a router from a configuration does, in order: build the
/// planned channels with their factories; then fail if a type has no
/// factory; then fail if nothing was built; else route with the primary.
#[derive(Debug, Clone)]
pub struct RouterPlan {
    /// Channels to build, in order.
    pub channels: Vec<PlannedChannel>,
    /// Index of the primary channel in `channels`.
    pub primary_idx: usize,
    /// The first adapter type without a factory, if any.
    pub missing_factory: Option<String>,
}

/// Why a router cannot be built.
#[derive(Debug, Clone)]
pub enum ChannelBuildError {
    /// An enabled adapter's type has no registered factory.
    MissingFactory { adapter_type: String },
    /// No channel is enabled for the mode.
    NoChannels { mode: ChannelBuildMode },
    /// A built-in adapter lacks a setting it needs.
    MissingField { adapter: String, field: String },
}

/// The name of a build mode, as the error message shows it.
pub open spec fn mode_name(mode: ChannelBuildMode) -> Seq<char> {
    match mode {
        ChannelBuildMode::Headless => "Headless"@,
        ChannelBuildMode::All => "All"@,
    }
}

/// The message of a build error.
pub open spec fn error_message(e: ChannelBuildError) -> Seq<char> {
    match e {
        ChannelBuildError::MissingFactory { adapter_type } => "No channel factory registered for adapter type '"@
            + adapter_type@ + "'. Register one via ChannelFactoryRegistry::register[_mut]()."@,
        ChannelBuildError::NoChannels { mode } => "No enabled channels configured for mode "@
            + mode_name(mode) + ". Add channel adapters under [channels] in the agent config."@,
        ChannelBuildError::MissingField { adapter, field } => adapter@ + " adapter: "@ + field@
            + " is required"@,
    }
}

/// An optional setting, trimmed, and absent when blank.
pub open spec fn nonblank(o: Option<String>) -> Option<Seq<char>> {
    match o {
        Some(p) => if trim(p@).len() > 0 {
            Some(trim(p@))
        } else {
            None
        },
        None => None,
    }
}

/// The candidates as integers.
pub open spec fn ints(v: Seq<usize>) -> Seq<int> {
    v.map_values(|x: usize| x as int)
}

/// `plan` is what building a router from `config` in `mode` with the
/// factories `reg` does: the candidates before the first one without a
/// factory are built, in order, under their assigned ids; the primary is the
/// last of them that matches the preference (else the first); the missing
/// type is reported when there is one.
pub open spec fn is_router_plan<F>(
    plan: RouterPlan,
    reg: Map<Seq<char>, ChannelFactory<F>>,
    config: ChannelConfig,
    mode: ChannelBuildMode,
) -> bool {
    let adapters = config.adapters@;
    let cands = candidates(adapters, mode);
    let bases = candidate_bases(adapters, cands);
    let k = first_missing(reg, adapters, cands, 0);
    &&& plan.channels@.len() == k
    &&& forall|j: int|
        0 <= j < k ==> {
            &&& #[trigger] plan.channels@[j].config_index == cands[j]
            &&& plan.channels@[j].id@ == assigned_id(bases, j)
        }
    &&& plan.primary_idx == primary_index(primary_pref(config.primary), adapters, cands, k)
    &&& (plan.missing_factory is Some <==> k < cands.len())
    &&& (k < cands.len() ==> plan.missing_factory->0@ == adapters[cands[k]].adapter_type.name@)
}

// ------------------------------------------------------------------
// Lemmas
// ------------------------------------------------------------------

proof fn lemma_entries_map_dom<F>(es: Seq<(String, ChannelFactory<F>)>, k: Seq<char>)
    ensures
        entries_map(es).dom().contains(k) <==> exists|i: int| 0 <= i < es.len() && es[i].0@ == k,
    decreases es.len(),
{
    if es.len() > 0 {
        lemma_entries_map_dom(es.drop_last(), k);
        if entries_map(es).dom().contains(k) && es.last().0@ != k {
            let i = choose|i: int| 0 <= i < es.drop_last().len() && es.drop_last()[i].0@ == k;
            assert(es[i].0@ == k);
        }
        if exists|i: int| 0 <= i < es.len() && es[i].0@ == k {
            let i = choose|i: int| 0 <= i < es.len() && es[i].0@ == k;
            if i < es.len() - 1 {
                assert(es.drop_last()[i].0@ == k);
            }
        }
    }
}

proof fn lemma_entries_map_value<F>(es: Seq<(String, ChannelFactory<F>)>, i: int)
    requires
        unique_keys(es),
        0 <= i < es.len(),
    ensures
        entries_map(es).dom().contains(es[i].0@),
        entries_map(es)[es[i].0@] == es[i].1,
    decreases es.len(),
{
    if i < es.len() - 1 {
        assert(unique_keys(es.drop_last()));
        lemma_entries_map_value(es.drop_last(), i);
        assert(es.drop_last()[i] == es[i]);
    }
}

proof fn lemma_entries_map_update<F>(es: Seq<(String, ChannelFactory<F>)>, i: int, f: ChannelFactory<F>)
    requires
        unique_keys(es),
        0 <= i < es.len(),
    ensures
        entries_map(es.update(i, (es[i].0, f))) == entries_map(es).insert(es[i].0@, f),
    decreases es.len(),
{
    let upd = es.update(i, (es[i].0, f));
    if i == es.len() - 1 {
        assert(upd.drop_last() =~= es.drop_last());
        assert(entries_map(upd) =~= entries_map(es).insert(es[i].0@, f));
    } else {
        assert(unique_keys(es.drop_last()));
        lemma_entries_map_update(es.drop_last(), i, f);
        assert(upd.drop_last() =~= es.drop_last().update(i, (es[i].0, f)));
        assert(es.last().0@ != es[i].0@);
        assert(entries_map(upd) =~= entries_map(es).insert(es[i].0@, f));
    }
}

proof fn lemma_candidates_bounds(adapters: Seq<AdapterConfig>, mode: ChannelBuildMode)
    ensures
        candidates(adapters, mode).len() <= adapters.len(),
        forall|j: int|
            0 <= j < candidates(adapters, mode).len() ==> 0 <= #[trigger] candidates(adapters, mode)[j]
                < adapters.len(),
    decreases adapters.len(),
{
    if adapters.len() > 0 {
        lemma_candidates_bounds(adapters.drop_last(), mode);
    }
}

proof fn lemma_first_missing_bounds<F>(
    reg: Map<Seq<char>, ChannelFactory<F>>,
    adapters: Seq<AdapterConfig>,
    cands: Seq<int>,
    j: int,
)
    requires
        0 <= j <= cands.len(),
    ensures
        j <= first_missing(reg, adapters, cands, j) <= cands.len(),
    decreases cands.len() - j,
{
    if j < cands.len() {
        lemma_first_missing_bounds(reg, adapters, cands, j + 1);
    }
}

proof fn lemma_primary_index_bounds(
    pref: Option<Seq<char>>,
    adapters: Seq<AdapterConfig>,
    cands: Seq<int>,
    n: int,
)
    ensures
        0 <= primary_index(pref, adapters, cands, n),
        n > 0 ==> primary_index(pref, adapters, cands, n) < n,
    decreases n,
{
    if n > 0 {
        lemma_primary_index_bounds(pref, adapters, cands, n - 1);
    }
}

// ------------------------------------------------------------------
// Laws of the router plan
// ------------------------------------------------------------------

proof fn lemma_dec_nonempty(n: nat)
    ensures
        dec(n).len() >= 1,
    decreases n,
{
    if n >= 10 {
        lemma_dec_nonempty(n / 10);
    }
}

/// Different numbers have different decimal renderings.
proof fn lemma_dec_injective(n: nat, m: nat)
    requires
        dec(n) == dec(m),
    ensures
        n == m,
    decreases n,
{
    if n < 10 && m < 10 {
        let dn = n as int;
        let dm = m as int;
        assert(dec(n)[0] == digit(dn));
        assert(dec(m)[0] == digit(dm));
        assert(((dn + 48) as char) as int == dn + 48);
        assert(((dm + 48) as char) as int == dm + 48);
    } else if n < 10 {
        lemma_dec_nonempty(m / 10);
        assert(dec(m).len() >= 2);
    } else if m < 10 {
        lemma_dec_nonempty(n / 10);
        assert(dec(n).len() >= 2);
    } else {
        let dn = (n % 10) as int;
        let dm = (m % 10) as int;
        assert(dec(n).last() == digit(dn));
        assert(dec(m).last() == digit(dm));
        assert(((dn + 48) as char) as int == dn + 48);
        assert(((dm + 48) as char) as int == dm + 48);
        assert(dn == dm);
        assert(dec(n).drop_last() =~= dec(n / 10));
        assert(dec(m).drop_last() =~= dec(m / 10));
        lemma_dec_injective(n / 10, m / 10);
        assert(n == 10 * (n / 10) + n % 10);
        assert(m == 10 * (m / 10) + m % 10);
    }
}

proof fn lemma_count_take_step(s: Seq<Seq<char>>, x: Seq<char>, j: int)
    requires
        0 <= j < s.len(),
    ensures
        count_of(s.take(j + 1), x) == count_of(s.take(j), x) + if s[j] == x {
            1nat
        } else {
            0nat
        },
{
    assert(s.take(j + 1).drop_last() =~= s.take(j));
}

proof fn lemma_count_take_mono(s: Seq<Seq<char>>, x: Seq<char>, i: int, j: int)
    requires
        0 <= i <= j <= s.len(),
    ensures
        count_of(s.take(i), x) <= count_of(s.take(j), x),
    decreases j - i,
{
    if i < j {
        lemma_count_take_step(s, x, j - 1);
        lemma_count_take_mono(s, x, i, j - 1);
    }
}

proof fn lemma_candidates_selected(adapters: Seq<AdapterConfig>, mode: ChannelBuildMode)
    ensures
        forall|j: int|
            0 <= j < candidates(adapters, mode).len() ==> selected(
                adapters[#[trigger] candidates(adapters, mode)[j]],
                mode,
            ),
        forall|i: int, j: int|
            0 <= i < j < candidates(adapters, mode).len() ==> #[trigger] candidates(adapters, mode)[i]
                < #[trigger] candidates(adapters, mode)[j],
    decreases adapters.len(),
{
    if adapters.len() > 0 {
        let rest = adapters.drop_last();
        lemma_candidates_selected(rest, mode);
        lemma_candidates_bounds(rest, mode);
        assert forall|j: int| 0 <= j < candidates(rest, mode).len() implies #[trigger] rest[candidates(rest, mode)[j]]
            == adapters[candidates(rest, mode)[j]] by {}
    }
}

/// Two planned channels whose adapters ask for the same channel id get
/// different ids: the first keeps it, the `n`-th gets `-n` appended.
pub proof fn planned_ids_differ_within_a_base<F>(
    plan: RouterPlan,
    reg: Map<Seq<char>, ChannelFactory<F>>,
    config: ChannelConfig,
    mode: ChannelBuildMode,
)
    requires
        is_router_plan(plan, reg, config, mode),
    ensures
        forall|j1: int, j2: int|
            0 <= j1 < j2 < plan.channels@.len() && base_id(
                config.adapters@[#[trigger] plan.channels@[j1].config_index as int],
            ) == base_id(config.adapters@[#[trigger] plan.channels@[j2].config_index as int])
                ==> plan.channels@[j1].id@ != plan.channels@[j2].id@,
{
    let adapters = config.adapters@;
    let cands = candidates(adapters, mode);
    let bases = candidate_bases(adapters, cands);
    let k = first_missing(reg, adapters, cands, 0);
    lemma_first_missing_bounds(reg, adapters, cands, 0);
    assert forall|j1: int, j2: int|
        0 <= j1 < j2 < plan.channels@.len() && base_id(
            config.adapters@[#[trigger] plan.channels@[j1].config_index as int],
        ) == base_id(config.adapters@[#[trigger] plan.channels@[j2].config_index as int])
        implies plan.channels@[j1].id@ != plan.channels@[j2].id@ by {
        assert(plan.channels@[j1].config_index == cands[j1]);
        assert(plan.channels@[j2].config_index == cands[j2]);
        let b = bases[j1];
        assert(bases[j2] == b);
        let n1 = count_of(bases.take(j1 + 1), b);
        let n2 = count_of(bases.take(j2 + 1), b);
        lemma_count_take_step(bases, b, j1);
        lemma_count_take_step(bases, b, j2);
        lemma_count_take_mono(bases, b, j1 + 1, j2);
        assert(n1 >= 1);
        assert(n2 >= n1 + 1);
        reveal_strlit("-");
        let id1 = assigned_id(bases, j1);
        let id2 = assigned_id(bases, j2);
        assert(id2 == b + "-"@ + dec(n2));
        lemma_dec_nonempty(n2);
        if id1 == id2 {
            if n1 == 1 {
                assert(id1.len() < id2.len());
            } else {
                assert(id1 == b + "-"@ + dec(n1));
                assert(dec(n1) =~= id1.skip(b.len() as int + 1));
                assert(dec(n2) =~= id2.skip(b.len() as int + 1));
                lemma_dec_injective(n1, n2);
            }
        }
    }
}

/// Every planned channel comes from an enabled adapter, never from a `tui`
/// adapter in headless mode, and the channels keep the configuration order.
pub proof fn planned_channels_are_selected_in_order<F>(
    plan: RouterPlan,
    reg: Map<Seq<char>, ChannelFactory<F>>,
    config: ChannelConfig,
    mode: ChannelBuildMode,
)
    requires
        is_router_plan(plan, reg, config, mode),
    ensures
        forall|j: int|
            0 <= j < plan.channels@.len() ==> {
                let cfg = config.adapters@[#[trigger] plan.channels@[j].config_index as int];
                &&& plan.channels@[j].config_index < config.adapters@.len()
                &&& cfg.enabled
                &&& (mode == ChannelBuildMode::Headless ==> cfg.adapter_type.name@ != "tui"@)
            },
        forall|i: int, j: int|
            0 <= i < j < plan.channels@.len() ==> #[trigger] plan.channels@[i].config_index
                < #[trigger] plan.channels@[j].config_index,
{
    let adapters = config.adapters@;
    let cands = candidates(adapters, mode);
    lemma_first_missing_bounds(reg, adapters, cands, 0);
    lemma_candidates_selected(adapters, mode);
    lemma_candidates_bounds(adapters, mode);
    assert forall|j: int| 0 <= j < plan.channels@.len() implies {
        let cfg = config.adapters@[#[trigger] plan.channels@[j].config_index as int];
        &&& plan.channels@[j].config_index < config.adapters@.len()
        &&& cfg.enabled
        &&& (mode == ChannelBuildMode::Headless ==> cfg.adapter_type.name@ != "tui"@)
    } by {
        assert(plan.channels@[j].config_index == cands[j]);
        assert(selected(adapters[cands[j]], mode));
    }
    assert forall|i: int, j: int| 0 <= i < j < plan.channels@.len() implies #[trigger] plan.channels@[i].config_index
        < #[trigger] plan.channels@[j].config_index by {
        assert(plan.channels@[i].config_index == cands[i]);
        assert(plan.channels@[j].config_index == cands[j]);
    }
}

/// When anything is planned, the primary index points at a planned channel;
/// a planned channel that matches the preference is primary unless a later
/// one matches too.
pub proof fn planned_primary_is_a_planned_channel<F>(
    plan: RouterPlan,
    reg: Map<Seq<char>, ChannelFactory<F>>,
    config: ChannelConfig,
    mode: ChannelBuildMode,
)
    requires
        is_router_plan(plan, reg, config, mode),
    ensures
        plan.channels@.len() > 0 ==> plan.primary_idx < plan.channels@.len(),
        plan.channels@.len() == 0 ==> plan.primary_idx == 0,
{
    let adapters = config.adapters@;
    let cands = candidates(adapters, mode);
    let k = first_missing(reg, adapters, cands, 0);
    lemma_primary_index_bounds(primary_pref(config.primary), adapters, cands, k);
}

// ------------------------------------------------------------------
// Executable code
// ------------------------------------------------------------------

impl<F> ChannelFactoryRegistry<F> {
    /// An empty registry.
    pub fn new() -> (r: Self)
        ensures
            r.wf(),
            r@ == Map::<Seq<char>, ChannelFactory<F>>::empty(),
    {
        ChannelFactoryRegistry { factories: Vec::new() }
    }

    /// A registry preloaded with the built-in external adapters: `telegram`
    /// and `http` (not `tui`, which lives with the terminal UI).
    pub fn with_builtin_adapters() -> (r: Self)
        ensures
            r.wf(),
            r@ == Map::<Seq<char>, ChannelFactory<F>>::empty().insert(
                "telegram"@,
                ChannelFactory::Telegram,
            ).insert("http"@, ChannelFactory::Http),
    {
        let mut registry = Self::new();
        registry.register_builtin_adapters();
        registry
    }

    fn register_builtin_adapters(&mut self)
        requires
            old(self).wf(),
        ensures
            final(self).wf(),
            final(self)@ == old(self)@.insert("telegram"@, ChannelFactory::Telegram).insert(
                "http"@,
                ChannelFactory::Http,
            ),
    {
        self.insert_factory("telegram", ChannelFactory::Telegram);
        self.insert_factory("http", ChannelFactory::Http);
    }

    /// Position of a type name among the entries.
    fn position(&self, adapter_type: &str) -> (r: Option<usize>)
        ensures
            match r {
                Some(i) => i < self.factories@.len() && self.factories@[i as int].0@ == adapter_type@,
                None => forall|i: int|
                    0 <= i < self.factories@.len() ==> self.factories@[i].0@ != adapter_type@,
            },
    {
        let mut i: usize = 0;
        while i < self.factories.len()
            invariant
                i <= self.factories@.len(),
                forall|k: int| 0 <= k < i ==> self.factories@[k].0@ != adapter_type@,
            decreases self.factories.len() - i,
        {
            if str_eq(self.factories[i].0.as_str(), adapter_type) {
                return Some(i);
            }
            i += 1;
        }
        None
    }

    fn insert_factory(&mut self, adapter_type: &str, factory: ChannelFactory<F>)
        requires
            old(self).wf(),
        ensures
            final(self).wf(),
            final(self)@ == old(self)@.insert(adapter_type@, factory),
    {
        match self.position(adapter_type) {
            Some(i) => {
                let ghost es = self.factories@;
                proof {
                    lemma_entries_map_update(es, i as int, factory);
                }
                let key = self.factories[i].0.clone();
                self.factories.set(i, (key, factory));
                assert(self.factories@ =~= es.update(i as int, (es[i as int].0, factory)));
            },
            None => {
                let key = owned(adapter_type);
                let ghost es = self.factories@;
                self.factories.push((key, factory));
                assert(self.factories@.drop_last() =~= es);
            },
        }
    }

    /// Register a channel factory for an adapter type; a factory already
    /// registered for that type is replaced. Returns the registry for
    /// chaining.
    pub fn register_mut(&mut self, adapter_type: &str, factory: F) -> (r: &mut Self)
        requires
            old(self).wf(),
        ensures
            r.wf(),
            r@ == old(self)@.insert(adapter_type@, ChannelFactory::Custom(factory)),
            *final(self) == *final(r),
    {
        self.insert_factory(adapter_type, ChannelFactory::Custom(factory));
        self
    }

    /// Register a channel factory (builder style).
    pub fn register(self, adapter_type: &str, factory: F) -> (r: Self)
        requires
            self.wf(),
        ensures
            r.wf(),
            r@ == self@.insert(adapter_type@, ChannelFactory::Custom(factory)),
    {
        let mut registry = self;
        registry.register_mut(adapter_type, factory);
        registry
    }

    /// The factory registered for an adapter type, if any.
    pub fn get(&self, adapter_type: &str) -> (r: Option<&ChannelFactory<F>>)
        requires
            self.wf(),
        ensures
            match r {
                Some(f) => self@.dom().contains(adapter_type@) && self@[adapter_type@] == *f,
                None => !self@.dom().contains(adapter_type@),
            },
    {
        proof {
            lemma_entries_map_dom(self.factories@, adapter_type@);
        }
        match self.position(adapter_type) {
            Some(i) => {
                proof {
                    lemma_entries_map_value(self.factories@, i as int);
                }
                Some(&self.factories[i].1)
            },
            None => None,
        }
    }

    /// Whether a factory is registered for an adapter type.
    pub fn contains(&self, adapter_type: &str) -> (r: bool)
        requires
            self.wf(),
        ensures
            r == self@.dom().contains(adapter_type@),
    {
        proof {
            lemma_entries_map_dom(self.factories@, adapter_type@);
        }
        self.position(adapter_type).is_some()
    }
}

impl<F> Default for ChannelFactoryRegistry<F> {
    /// An empty registry.
    fn default() -> (r: Self)
        ensures
            r.wf(),
            r@ == Map::<Seq<char>, ChannelFactory<F>>::empty(),
    {
        ChannelFactoryRegistry::new()
    }
}

/// An optional setting, trimmed, and `None` when blank (see [`nonblank`]).
fn nonblank_value(o: &Option<String>) -> (r: Option<String>)
    ensures
        match r {
            Some(p) => nonblank(*o) == Some(p@),
            None => nonblank(*o) is None,
        },
{
    match o {
        Some(p) => {
            let t = trim_str(p.as_str());
            if t.as_str().is_empty() {
                None
            } else {
                Some(t)
            }
        },
        None => None,
    }
}

/// Indices of the adapters that take part in a build.
fn candidate_indices(adapters: &Vec<AdapterConfig>, mode: ChannelBuildMode) -> (r: Vec<usize>)
    ensures
        ints(r@) == candidates(adapters@, mode),
{
    let mut r: Vec<usize> = Vec::new();
    let mut i: usize = 0;
    while i < adapters.len()
        invariant
            i <= adapters@.len(),
            ints(r@) == candidates(adapters@.take(i as int), mode),
        decreases adapters.len() - i,
    {
        assert(adapters@.take((i + 1) as int).drop_last() =~= adapters@.take(i as int));
        let a = &adapters[i];
        let skip = mode == ChannelBuildMode::Headless && a.adapter_type.is_tui();
        if a.enabled && !skip {
            let ghost before = r@;
            r.push(i);
            assert(ints(r@) =~= ints(before).push(i as int));
        }
        i += 1;
    }
    assert(adapters@.take(adapters@.len() as int) =~= adapters@);
    r
}

impl<F> ChannelFactoryRegistry<F> {
    /// Plan the build of a channel router from configuration (see
    /// [`is_router_plan`]).
    #[verifier::spinoff_prover]
    pub fn plan_router(&self, config: &ChannelConfig, mode: ChannelBuildMode) -> (r: RouterPlan)
        requires
            self.wf(),
        ensures
            is_router_plan(r, self@, *config, mode),
    {
        let adapters = &config.adapters;
        let cands = candidate_indices(adapters, mode);
        let ghost cs = candidates(adapters@, mode);
        proof {
            lemma_candidates_bounds(adapters@, mode);
        }
        let pref = nonblank_value(&config.primary);
        let ghost gpref = primary_pref(config.primary);
        let mut bases: Vec<String> = Vec::new();
        let mut channels: Vec<PlannedChannel> = Vec::new();
        let mut primary_idx: usize = 0;
        let mut j: usize = 0;
        let clen = cands.len();
        let ghost bs = candidate_bases(adapters@, cs);
        while j < cands.len()
            invariant
                ints(cands@) == cs,
                cands@.len() == clen,
                adapters@ == config.adapters@,
                cs == candidates(adapters@, mode),
                bs == candidate_bases(adapters@, cs),
                gpref == primary_pref(config.primary),
                forall|x: int| 0 <= x < cs.len() ==> 0 <= #[trigger] cs[x] < adapters@.len(),
                j <= cands@.len(),
                self.wf(),
                bases@.len() == j,
                forall|x: int| 0 <= x < j ==> #[trigger] bases@[x]@ == bs[x],
                channels@.len() == j,
                forall|x: int|
                    0 <= x < j ==> {
                        &&& #[trigger] channels@[x].config_index == cs[x]
                        &&& channels@[x].id@ == assigned_id(bs, x)
                    },
                first_missing(self@, adapters@, cs, 0) == first_missing(self@, adapters@, cs, j as int),
                primary_idx == primary_index(gpref, adapters@, cs, j as int),
                match pref {
                    Some(p) => gpref == Some(p@),
                    None => gpref is None,
                },
            decreases cands.len() - j,
        {
            let ci = cands[j];
            assert(cs[j as int] == ci as int);
            let cfg = &adapters[ci];
            if !self.contains(cfg.adapter_type.as_str()) {
                let missing = owned(cfg.adapter_type.as_str());
                assert(first_missing(self@, adapters@, cs, j as int) == j);
                proof {
                    lemma_primary_index_bounds(gpref, adapters@, cs, j as int);
                }
                return RouterPlan { channels, primary_idx, missing_factory: Some(missing) };
            }
            let base = cfg.base_id();
            assert(base@ == bs[j as int]);
            // occurrences of this base id so far, including this one
            let mut count: usize = 1;
            let mut x: usize = 0;
            assert(bs.take(j as int + 1).drop_last() =~= bs.take(j as int));
            while x < j
                invariant
                    x <= j,
                    j < cands@.len(),
                    cands@.len() == clen,
                    bs.len() == cs.len(),
                    ints(cands@) == cs,
                    bases@.len() == j,
                    forall|y: int| 0 <= y < j ==> #[trigger] bases@[y]@ == bs[y],
                    count == 1 + count_of(bs.take(x as int), base@),
                    count <= x + 1,
                decreases j - x,
            {
                assert(bs.take(x as int + 1).drop_last() =~= bs.take(x as int));
                if str_eq(bases[x].as_str(), base.as_str()) {
                    count += 1;
                }
                x += 1;
            }
            assert(count == count_of(bs.take(j as int + 1), bs[j as int]));
            let id = if count == 1 {
                base.clone()
            } else {
                let mut id = base.clone();
                id.append("-");
                let d = dec_usize(count);
                id.append(d.as_str());
                id
            };
            assert(id@ =~= assigned_id(bs, j as int));
            let matched = match &pref {
                Some(p) => str_eq(p.as_str(), id.as_str()) || str_eq(p.as_str(), base.as_str())
                    || str_eq(p.as_str(), cfg.adapter_type.as_str()),
                None => false,
            };
            assert(matched == matches_primary(gpref, assigned_id(bs, j as int), bs[j as int], adapters@[cs[j as int]].adapter_type.name@));
            if matched {
                primary_idx = j;
            }
            let ghost prev = channels@;
            let ghost id_view = id@;
            channels.push(PlannedChannel { config_index: ci, id });
            assert forall|x: int| 0 <= x < j + 1 implies {
                &&& #[trigger] channels@[x].config_index == cs[x]
                &&& channels@[x].id@ == assigned_id(bs, x)
            } by {
                if x < j {
                    assert(channels@[x] == prev[x]);
                } else {
                    assert(channels@[x].config_index == ci);
                    assert(channels@[x].id@ == id_view);
                }
            }
            bases.push(base);
            j += 1;
        }
        proof {
            lemma_primary_index_bounds(gpref, adapters@, cs, j as int);
        }
        RouterPlan { channels, primary_idx, missing_factory: None }
    }
}

impl ChannelBuildError {
    /// The error's message.
    pub fn message(&self) -> (r: String)
        ensures
            r@ == error_message(*self),
    {
        let mut r = String::new();
        match self {
            ChannelBuildError::MissingFactory { adapter_type } => {
                r.append("No channel factory registered for adapter type '");
                r.append(adapter_type.as_str());
                r.append("'. Register one via ChannelFactoryRegistry::register[_mut]().");
            },
            ChannelBuildError::NoChannels { mode } => {
                r.append("No enabled channels configured for mode ");
                match mode {
                    ChannelBuildMode::Headless => r.append("Headless"),
                    ChannelBuildMode::All => r.append("All"),
                }
                r.append(". Add channel adapters under [channels] in the agent config.");
            },
            ChannelBuildError::MissingField { adapter, field } => {
                r.append(adapter.as_str());
                r.append(" adapter: ");
                r.append(field.as_str());
                r.append(" is required");
            },
        }
        assert(r@ =~= error_message(*self));
        r
    }
}

/// A setting a built-in adapter cannot do without: its trimmed value, or
/// the error naming the adapter and the field when it is absent or blank.
pub fn required(value: &Option<String>, adapter: &str, field: &str) -> (r: Result<
    String,
    ChannelBuildError,
>)
    ensures
        match nonblank(*value) {
            Some(v) => r matches Ok(s) && s@ == v,
            None => r matches Err(ChannelBuildError::MissingField { adapter: a, field: f }) && a@
                == adapter@ && f@ == field@,
        },
{
    match nonblank_value(value) {
        Some(v) => Ok(v),
        None => Err(ChannelBuildError::MissingField { adapter: owned(adapter), field: owned(field) }),
    }
}

/// A copy of a list of strings.
fn copy_strings(v: &Vec<String>) -> (r: Vec<String>)
    ensures
        r@ == v@,
{
    let mut r: Vec<String> = Vec::new();
    let mut i: usize = 0;
    while i < v.len()
        invariant
            i <= v@.len(),
            r@ == v@.take(i as int),
        decreases v.len() - i,
    {
        r.push(v[i].clone());
        assert(r@ =~= v@.take(i + 1));
        i += 1;
    }
    assert(v@.take(v@.len() as int) =~= v@);
    r
}

/// What the Telegram adapter is built from.
#[derive(Debug, Clone)]
pub struct TelegramSettings {
    pub id: String,
    pub bot_token: String,
    pub chat_id: String,
    pub allowed_chats: Vec<String>,
    pub allowed_senders: Vec<String>,
}

/// What the HTTP adapter is built from.
#[derive(Debug, Clone)]
pub struct HttpSettings {
    pub id: String,
    pub bind_addr: String,
    pub auth_token: Option<String>,
    pub request_timeout_secs: u64,
}

/// The settings of a built-in adapter.
#[derive(Debug, Clone)]
pub enum AdapterSettings {
    Telegram(TelegramSettings),
    Http(HttpSettings),
}

/// An adapter-specific setting by key.
pub open spec fn extra_setting(cfg: AdapterConfig, key: Seq<char>) -> Option<crate::json::Json> {
    member(members_view(cfg.extra), key)
}

/// The HTTP adapter's listening address: `bind_addr` when it is a string,
/// else `0.0.0.0:8080`.
pub open spec fn http_bind_addr(cfg: AdapterConfig) -> Seq<char> {
    match opt_str(extra_setting(cfg, "bind_addr"@)) {
        Some(s) => s,
        None => "0.0.0.0:8080"@,
    }
}

/// The HTTP adapter's request timeout: `request_timeout_secs` when it is a
/// non-negative integer, else 300.
pub open spec fn http_timeout(cfg: AdapterConfig) -> u64 {
    match opt_u64(extra_setting(cfg, "request_timeout_secs"@)) {
        Some(u) => u,
        None => 300,
    }
}

impl AdapterConfig {
    /// The channel id this adapter asks for (see [`base_id`]).
    pub fn base_id(&self) -> (r: String)
        ensures
            r@ == base_id(*self),
    {
        match &self.id {
            Some(id) => {
                let t = trim_str(id.as_str());
                if !t.as_str().is_empty() {
                    t
                } else {
                    self.adapter_type.name.clone()
                }
            },
            None => self.adapter_type.name.clone(),
        }
    }

    /// An adapter-specific setting by key.
    pub fn extra_value(&self, key: &str) -> (r: Option<&JsonValue>)
        ensures
            opt_ref_view(r) == extra_setting(*self, key@),
    {
        member_of(&self.extra, key)
    }
}

/// The Telegram settings of an adapter that gets the channel id `id`: the
/// bot token and the chat id are required, in that order.
pub fn telegram_settings(cfg: &AdapterConfig, id: &str) -> (r: Result<
    TelegramSettings,
    ChannelBuildError,
>)
    ensures
        match (nonblank(cfg.bot_token), nonblank(cfg.chat_id)) {
            (Some(token), Some(chat)) => r matches Ok(t) && t.id@ == id@ && t.bot_token@ == token
                && t.chat_id@ == chat && t.allowed_chats@ == cfg.allowed_chats@
                && t.allowed_senders@ == cfg.allowed_senders@,
            (None, _) => r matches Err(ChannelBuildError::MissingField { adapter: a, field: f })
                && a@ == "telegram"@ && f@ == "bot_token"@,
            (Some(_), None) => r matches Err(ChannelBuildError::MissingField { adapter: a, field: f })
                && a@ == "telegram"@ && f@ == "chat_id"@,
        },
{
    let token = match required(&cfg.bot_token, "telegram", "bot_token") {
        Ok(t) => t,
        Err(e) => {
            return Err(e);
        },
    };
    let chat_id = match required(&cfg.chat_id, "telegram", "chat_id") {
        Ok(c) => c,
        Err(e) => {
            return Err(e);
        },
    };
    Ok(
        TelegramSettings {
            id: owned(id),
            bot_token: token,
            chat_id,
            allowed_chats: copy_strings(&cfg.allowed_chats),
            allowed_senders: copy_strings(&cfg.allowed_senders),
        },
    )
}

/// The HTTP settings of an adapter that gets the channel id `id`: the
/// listening address, the optional auth token (when it is a string) and
/// the request timeout, each from the adapter-specific settings.
pub fn http_settings(cfg: &AdapterConfig, id: &str) -> (r: HttpSettings)
    ensures
        r.id@ == id@,
        r.bind_addr@ == http_bind_addr(*cfg),
        match opt_str(extra_setting(*cfg, "auth_token"@)) {
            Some(t) => r.auth_token matches Some(a) && a@ == t,
            None => r.auth_token is None,
        },
        r.request_timeout_secs == http_timeout(*cfg),
{
    let bind_addr = match cfg.extra_value("bind_addr") {
        Some(v) => match v.as_str() {
            Some(s) => owned(s),
            None => owned("0.0.0.0:8080"),
        },
        None => owned("0.0.0.0:8080"),
    };
    let auth_token = match cfg.extra_value("auth_token") {
        Some(v) => match v.as_str() {
            Some(s) => Some(owned(s)),
            None => None,
        },
        None => None,
    };
    let request_timeout_secs = match cfg.extra_value("request_timeout_secs") {
        Some(v) => match v.as_u64() {
            Some(u) => u,
            None => 300,
        },
        None => 300,
    };
    HttpSettings { id: owned(id), bind_addr, auth_token, request_timeout_secs }
}

impl<F> ChannelFactory<F> {
    /// What a built-in factory builds its adapter from, for an adapter that
    /// gets the channel id `id`; `None` for a custom factory.
    pub fn builtin_settings(&self, cfg: &AdapterConfig, id: &str) -> (r: Option<
        Result<AdapterSettings, ChannelBuildError>,
    >)
        ensures
            match self {
                ChannelFactory::Telegram => r matches Some(res) && match (
                    nonblank(cfg.bot_token),
                    nonblank(cfg.chat_id),
                ) {
                    (Some(token), Some(chat)) => res matches Ok(AdapterSettings::Telegram(t))
                        && t.id@ == id@ && t.bot_token@ == token && t.chat_id@ == chat
                        && t.allowed_chats@ == cfg.allowed_chats@ && t.allowed_senders@
                        == cfg.allowed_senders@,
                    _ => res is Err,
                },
                ChannelFactory::Http => r matches Some(res) && res matches Ok(
                    AdapterSettings::Http(h),
                ) && h.id@ == id@ && h.bind_addr@ == http_bind_addr(*cfg) && h.request_timeout_secs
                    == http_timeout(*cfg) && match opt_str(extra_setting(*cfg, "auth_token"@)) {
                    Some(t) => h.auth_token matches Some(a) && a@ == t,
                    None => h.auth_token is None,
                },
                ChannelFactory::Custom(_) => r is None,
            },
    {
        match self {
            ChannelFactory::Telegram => match telegram_settings(cfg, id) {
                Ok(t) => Some(Ok(AdapterSettings::Telegram(t))),
                Err(e) => Some(Err(e)),
            },
            ChannelFactory::Http => Some(Ok(AdapterSettings::Http(http_settings(cfg, id)))),
            ChannelFactory::Custom(_) => None,
        }
    }
}

/// How a planned build ends once every planned channel was built: with the
/// missing factory's error, with the no-channels error when nothing was
/// planned, or with the index of the primary channel.
pub fn finish_plan(plan: &RouterPlan, mode: ChannelBuildMode) -> (r: Result<usize, ChannelBuildError>)
    ensures
        match plan.missing_factory {
            Some(t) => r matches Err(ChannelBuildError::MissingFactory { adapter_type: a }) && a@
                == t@,
            None => if plan.channels@.len() == 0 {
                r matches Err(ChannelBuildError::NoChannels { mode: m }) && m == mode
            } else {
                r == Ok::<usize, ChannelBuildError>(plan.primary_idx)
            },
        },
{
    match &plan.missing_factory {
        Some(t) => Err(ChannelBuildError::MissingFactory { adapter_type: t.clone() }),
        None => if plan.channels.len() == 0 {
            Err(ChannelBuildError::NoChannels { mode })
        } else {
            Ok(plan.primary_idx)
        },
    }
}

} // verus!
