//! Catalogs derived from engine metadata: units grouped by physical
//! dimension, functions grouped by origin, and bound constants — each a pure
//! projection of the evaluation state at the moment of the call, freshly
//! recomputed, sorted and deduplicated.

use vstd::prelude::*;

verus! {

use crate::order::{lex_lt, lemma_lex_transitive, lemma_lex_irreflexive, str_lt, SortOrder};

broadcast use vstd::seq_lib::group_to_multiset_ensures;

// ---------------------------------------------------------------------------
// Raw engine metadata, as plain values.
// ---------------------------------------------------------------------------

/// Metadata of one registered unit, as the engine reports it.
pub struct RawUnit {
    /// The unit's physical dimension is the scalar (dimensionless) one.
    pub scalar: bool,
    /// The display name the dimension registry resolves the unit's dimension
    /// to; nothing when the dimension is unresolved.
    pub dimension: Option<String>,
    /// The registered alias names, in registration order.
    pub aliases: Vec<String>,
    /// The unit's designated human name, when it has one.
    pub display_name: Option<String>,
}

/// Where a registered function came from.
pub enum FnOrigin {
    /// Entered during this session.
    Session,
    /// A built-in without a module path.
    Builtin,
    /// A named module, as its path components.
    Module(Vec<String>),
    /// A file that was read in, as its base name.
    SourceFile(String),
}

/// Metadata of one registered function, as the engine reports it.
pub struct RawFunction {
    pub fn_name: String,
    pub name: Option<String>,
    pub signature: String,
    pub description: Option<String>,
    pub origin: FnOrigin,
}

// ---------------------------------------------------------------------------
// Catalog records.
// ---------------------------------------------------------------------------

/// One unit of a catalog group.
pub struct UnitEntry {
    pub canonical_name: String,
    pub display_name: String,
}

/// Mathematical model of a [`UnitEntry`].
pub struct UnitEntryModel {
    pub canonical_name: Seq<char>,
    pub display_name: Seq<char>,
}

impl View for UnitEntry {
    type V = UnitEntryModel;

    open spec fn view(&self) -> UnitEntryModel {
        UnitEntryModel {
            canonical_name: self.canonical_name@,
            display_name: self.display_name@,
        }
    }
}

impl UnitEntry {
    /// A copy equal to this entry.
    pub fn duplicate(&self) -> (r: UnitEntry)
        ensures
            r@ == self@,
    {
        UnitEntry {
            canonical_name: self.canonical_name.clone(),
            display_name: self.display_name.clone(),
        }
    }
}

/// The units of one physical dimension.
pub struct UnitGroup {
    pub dimension: String,
    pub units: Vec<UnitEntry>,
}

/// Mathematical model of a [`UnitGroup`].
pub struct UnitGroupModel {
    pub dimension: Seq<char>,
    pub units: Seq<UnitEntryModel>,
}

impl View for UnitGroup {
    type V = UnitGroupModel;

    open spec fn view(&self) -> UnitGroupModel {
        UnitGroupModel {
            dimension: self.dimension@,
            units: self.units@.map_values(|u: UnitEntry| u@),
        }
    }
}

/// One constant: a bound non-function identifier.
pub struct ConstantEntry {
    pub name: String,
}

impl View for ConstantEntry {
    type V = Seq<char>;

    open spec fn view(&self) -> Seq<char> {
        self.name@
    }
}

/// One function of a catalog group.
pub struct FunctionEntry {
    pub fn_name: String,
    pub name: Option<String>,
    pub signature: String,
    pub description: Option<String>,
}

/// Mathematical model of a [`FunctionEntry`].
pub struct FunctionEntryModel {
    pub fn_name: Seq<char>,
    pub name: Option<Seq<char>>,
    pub signature: Seq<char>,
    pub description: Option<Seq<char>>,
}

impl View for FunctionEntry {
    type V = FunctionEntryModel;

    open spec fn view(&self) -> FunctionEntryModel {
        FunctionEntryModel {
            fn_name: self.fn_name@,
            name: match self.name {
                Some(ref n) => Some(n@),
                None => None,
            },
            signature: self.signature@,
            description: match self.description {
                Some(ref d) => Some(d@),
                None => None,
            },
        }
    }
}

/// The functions of one origin label.
pub struct FunctionGroup {
    pub module: String,
    pub functions: Vec<FunctionEntry>,
}

/// Mathematical model of a [`FunctionGroup`].
pub struct FunctionGroupModel {
    pub module: Seq<char>,
    pub functions: Seq<FunctionEntryModel>,
}

impl View for FunctionGroup {
    type V = FunctionGroupModel;

    open spec fn view(&self) -> FunctionGroupModel {
        FunctionGroupModel {
            module: self.module@,
            functions: self.functions@.map_values(|f: FunctionEntry| f@),
        }
    }
}

// ---------------------------------------------------------------------------
// Sorting orders of the catalog records.
// ---------------------------------------------------------------------------

impl SortOrder for UnitEntry {
    open spec fn before(&self, other: &Self) -> bool {
        lex_lt(self.display_name@, other.display_name@)
    }

    proof fn lemma_before_transitive(a: &Self, b: &Self, c: &Self) {
        lemma_lex_transitive(a.display_name@, b.display_name@, c.display_name@);
    }

    proof fn lemma_before_irreflexive(a: &Self) {
        lemma_lex_irreflexive(a.display_name@);
    }

    fn before_exec(&self, other: &Self) -> (r: bool) {
        str_lt(self.display_name.as_str(), other.display_name.as_str())
    }
}

impl SortOrder for FunctionEntry {
    open spec fn before(&self, other: &Self) -> bool {
        lex_lt(self.fn_name@, other.fn_name@)
    }

    proof fn lemma_before_transitive(a: &Self, b: &Self, c: &Self) {
        lemma_lex_transitive(a.fn_name@, b.fn_name@, c.fn_name@);
    }

    proof fn lemma_before_irreflexive(a: &Self) {
        lemma_lex_irreflexive(a.fn_name@);
    }

    fn before_exec(&self, other: &Self) -> (r: bool) {
        str_lt(self.fn_name.as_str(), other.fn_name.as_str())
    }
}

impl SortOrder for ConstantEntry {
    open spec fn before(&self, other: &Self) -> bool {
        lex_lt(self.name@, other.name@)
    }

    proof fn lemma_before_transitive(a: &Self, b: &Self, c: &Self) {
        lemma_lex_transitive(a.name@, b.name@, c.name@);
    }

    proof fn lemma_before_irreflexive(a: &Self) {
        lemma_lex_irreflexive(a.name@);
    }

    fn before_exec(&self, other: &Self) -> (r: bool) {
        str_lt(self.name.as_str(), other.name.as_str())
    }
}

impl SortOrder for FunctionGroup {
    open spec fn before(&self, other: &Self) -> bool {
        lex_lt(self.module@, other.module@)
    }

    proof fn lemma_before_transitive(a: &Self, b: &Self, c: &Self) {
        lemma_lex_transitive(a.module@, b.module@, c.module@);
    }

    proof fn lemma_before_irreflexive(a: &Self) {
        lemma_lex_irreflexive(a.module@);
    }

    fn before_exec(&self, other: &Self) -> (r: bool) {
        str_lt(self.module.as_str(), other.module.as_str())
    }
}

// ---------------------------------------------------------------------------
// Dimension priority: a fixed list of dimensions first, all others after
// them in alphabetical order.
// ---------------------------------------------------------------------------

/// The rank of a dimension: its place in the fixed priority list, or the
/// rank after every listed one.
pub open spec fn dim_rank(d: Seq<char>) -> int {
    if d == "Length"@ {
        0
    } else if d == "Mass"@ {
        1
    } else if d == "Time"@ {
        2
    } else if d == "ElectricCurrent"@ {
        3
    } else if d == "Temperature"@ {
        4
    } else if d == "AmountOfSubstance"@ {
        5
    } else if d == "LuminousIntensity"@ {
        6
    } else if d == "DigitalInformation"@ {
        7
    } else if d == "Money"@ {
        8
    } else {
        9
    }
}

/// The order of unit groups: by rank, then alphabetically among the
/// dimensions outside the priority list.
pub open spec fn group_before(d1: Seq<char>, d2: Seq<char>) -> bool {
    dim_rank(d1) < dim_rank(d2) || (dim_rank(d1) == 9 && dim_rank(d2) == 9 && lex_lt(d1, d2))
}

/// The rank of a dimension, on concrete values.
pub fn dim_rank_exec(d: &str) -> (r: u8)
    ensures
        r as int == dim_rank(d@),
{
    if crate::order::str_eq(d, "Length") {
        0
    } else if crate::order::str_eq(d, "Mass") {
        1
    } else if crate::order::str_eq(d, "Time") {
        2
    } else if crate::order::str_eq(d, "ElectricCurrent") {
        3
    } else if crate::order::str_eq(d, "Temperature") {
        4
    } else if crate::order::str_eq(d, "AmountOfSubstance") {
        5
    } else if crate::order::str_eq(d, "LuminousIntensity") {
        6
    } else if crate::order::str_eq(d, "DigitalInformation") {
        7
    } else if crate::order::str_eq(d, "Money") {
        8
    } else {
        9
    }
}

impl SortOrder for UnitGroup {
    open spec fn before(&self, other: &Self) -> bool {
        group_before(self.dimension@, other.dimension@)
    }

    proof fn lemma_before_transitive(a: &Self, b: &Self, c: &Self) {
        if dim_rank(a.dimension@) == 9 && dim_rank(b.dimension@) == 9 && dim_rank(c.dimension@)
            == 9 && lex_lt(a.dimension@, b.dimension@) && lex_lt(b.dimension@, c.dimension@) {
            lemma_lex_transitive(a.dimension@, b.dimension@, c.dimension@);
        }
    }

    proof fn lemma_before_irreflexive(a: &Self) {
        lemma_lex_irreflexive(a.dimension@);
    }

    fn before_exec(&self, other: &Self) -> (r: bool) {
        let r1 = dim_rank_exec(self.dimension.as_str());
        let r2 = dim_rank_exec(other.dimension.as_str());
        if r1 < r2 {
            true
        } else if r1 == 9 && r2 == 9 {
            str_lt(self.dimension.as_str(), other.dimension.as_str())
        } else {
            false
        }
    }
}


// ---------------------------------------------------------------------------
// Unit selection: which raw units enter the catalog, and under which names.
// ---------------------------------------------------------------------------

/// Mathematical model of a [`RawUnit`].
pub struct RawUnitModel {
    pub scalar: bool,
    pub dimension: Option<Seq<char>>,
    pub aliases: Seq<Seq<char>>,
    pub display_name: Option<Seq<char>>,
}

impl View for RawUnit {
    type V = RawUnitModel;

    open spec fn view(&self) -> RawUnitModel {
        RawUnitModel {
            scalar: self.scalar,
            dimension: match self.dimension {
                Some(ref d) => Some(d@),
                None => None,
            },
            aliases: self.aliases.deep_view(),
            display_name: match self.display_name {
                Some(ref n) => Some(n@),
                None => None,
            },
        }
    }
}

/// One selected unit, still carrying its dimension.
pub struct DimUnit {
    pub dimension: String,
    pub entry: UnitEntry,
}

/// Mathematical model of a [`DimUnit`].
pub struct DimUnitModel {
    pub dimension: Seq<char>,
    pub entry: UnitEntryModel,
}

impl View for DimUnit {
    type V = DimUnitModel;

    open spec fn view(&self) -> DimUnitModel {
        DimUnitModel { dimension: self.dimension@, entry: self.entry@ }
    }
}

/// View of a sequence of raw units.
pub open spec fn raws_view(s: Seq<RawUnit>) -> Seq<RawUnitModel> {
    s.map_values(|u: RawUnit| u@)
}

/// View of a sequence of selected units.
pub open spec fn pairs_view(s: Seq<DimUnit>) -> Seq<DimUnitModel> {
    s.map_values(|p: DimUnit| p@)
}

/// The shortest of the texts seen so far, the earliest among equally short.
pub open spec fn shortest_from(best: Seq<char>, rest: Seq<Seq<char>>) -> Seq<char>
    decreases rest.len(),
{
    if rest.len() == 0 {
        best
    } else if rest[0].len() < best.len() {
        shortest_from(rest[0], rest.skip(1))
    } else {
        shortest_from(best, rest.skip(1))
    }
}

/// The canonical name of a unit: its first shortest registered alias.
pub open spec fn canonical_alias(aliases: Seq<Seq<char>>) -> Seq<char>
    recommends
        aliases.len() > 0,
{
    shortest_from(aliases[0], aliases.skip(1))
}

/// A raw unit enters the catalog when its dimension is resolved and not the
/// scalar one, and it has at least one alias.
pub open spec fn eligible(u: RawUnitModel) -> bool {
    &&& !u.scalar
    &&& u.dimension is Some
    &&& u.aliases.len() > 0
}

/// The text of a resolved dimension.
pub open spec fn opt_text(o: Option<Seq<char>>) -> Seq<char> {
    match o {
        Some(d) => d,
        None => Seq::empty(),
    }
}

/// The catalog entry of an eligible raw unit: canonical name from its
/// aliases, display name from its human name, falling back to the canonical
/// name.
pub open spec fn unit_entry_of(u: RawUnitModel) -> UnitEntryModel {
    UnitEntryModel {
        canonical_name: canonical_alias(u.aliases),
        display_name: match u.display_name {
            Some(n) => n,
            None => canonical_alias(u.aliases),
        },
    }
}

/// The selected unit of an eligible raw unit.
pub open spec fn pair_of(u: RawUnitModel) -> DimUnitModel {
    DimUnitModel { dimension: opt_text(u.dimension), entry: unit_entry_of(u) }
}

/// The selected units, in order: one per eligible raw unit.
pub open spec fn spec_select_units(s: Seq<RawUnitModel>) -> Seq<DimUnitModel>
    decreases s.len(),
{
    if s.len() == 0 {
        Seq::empty()
    } else if eligible(s[0]) {
        seq![pair_of(s[0])] + spec_select_units(s.skip(1))
    } else {
        spec_select_units(s.skip(1))
    }
}

/// Selection distributes over concatenation.
pub proof fn lemma_select_concat(a: Seq<RawUnitModel>, b: Seq<RawUnitModel>)
    ensures
        spec_select_units(a + b) == spec_select_units(a) + spec_select_units(b),
    decreases a.len(),
{
    if a.len() == 0 {
        assert(a + b =~= b);
        assert(spec_select_units(a) + spec_select_units(b) =~= spec_select_units(b));
    } else {
        lemma_select_concat(a.skip(1), b);
        assert((a + b).skip(1) =~= a.skip(1) + b);
        assert(spec_select_units(a + b) =~= spec_select_units(a) + spec_select_units(b));
    }
}

/// The canonical name of a unit, on concrete values.
pub fn canonical_alias_exec(aliases: &Vec<String>) -> (r: String)
    requires
        aliases@.len() > 0,
    ensures
        r@ == canonical_alias(aliases.deep_view()),
{
    let ghost dv = aliases.deep_view();
    let mut best = aliases[0].clone();
    let mut best_len = best.as_str().unicode_len();
    let mut i: usize = 1;
    while i < aliases.len()
        invariant
            dv == aliases.deep_view(),
            dv.len() == aliases@.len(),
            1 <= i <= dv.len(),
            best_len == best@.len(),
            canonical_alias(dv) == shortest_from(best@, dv.skip(i as int)),
        decreases dv.len() - i,
    {
        proof {
            assert(dv.skip(i as int)[0] == dv[i as int]);
            assert(dv.skip(i as int).skip(1) =~= dv.skip(i as int + 1));
            assert(dv[i as int] == aliases@[i as int]@);
        }
        let cand_len = aliases[i].as_str().unicode_len();
        if cand_len < best_len {
            best = aliases[i].clone();
            best_len = cand_len;
        }
        i = i + 1;
    }
    proof {
        assert(dv.skip(dv.len() as int) =~= Seq::<Seq<char>>::empty());
    }
    best
}

/// Select the units that enter the catalog, with their dimensions and
/// catalog names.
pub fn select_units(raw: &Vec<RawUnit>) -> (r: Vec<DimUnit>)
    ensures
        pairs_view(r@) == spec_select_units(raws_view(raw@)),
{
    let ghost rv = raws_view(raw@);
    let mut out: Vec<DimUnit> = Vec::new();
    let mut i: usize = 0;
    proof {
        assert(spec_select_units(rv.take(0)) =~= Seq::<DimUnitModel>::empty());
        assert(pairs_view(out@) =~= spec_select_units(rv.take(0)));
    }
    while i < raw.len()
        invariant
            rv == raws_view(raw@),
            rv.len() == raw@.len(),
            i <= rv.len(),
            pairs_view(out@) == spec_select_units(rv.take(i as int)),
        decreases rv.len() - i,
    {
        let u = &raw[i];
        proof {
            assert(rv.take(i as int + 1) =~= rv.take(i as int) + seq![rv[i as int]]);
            lemma_select_concat(rv.take(i as int), seq![rv[i as int]]);
            assert(seq![rv[i as int]].skip(1) =~= Seq::<RawUnitModel>::empty());
            assert(spec_select_units(Seq::<RawUnitModel>::empty()) == Seq::<DimUnitModel>::empty());
            if eligible(rv[i as int]) {
                assert(spec_select_units(seq![rv[i as int]]) =~= seq![pair_of(rv[i as int])]);
            } else {
                assert(spec_select_units(seq![rv[i as int]]) =~= Seq::<DimUnitModel>::empty());
            }
            assert(rv[i as int] == raw@[i as int]@);
        }
        let mut eligible_now = false;
        if !u.scalar && u.aliases.len() > 0 {
            if u.dimension.is_some() {
                eligible_now = true;
            }
        }
        if eligible_now {
            let dim = match &u.dimension {
                Some(d) => d.clone(),
                None => String::new(),
            };
            let canonical = canonical_alias_exec(&u.aliases);
            let display = match &u.display_name {
                Some(n) => n.clone(),
                None => canonical.clone(),
            };
            let ghost out_old = out@;
            out.push(
                DimUnit {
                    dimension: dim,
                    entry: UnitEntry { canonical_name: canonical, display_name: display },
                },
            );
            proof {
                assert(pairs_view(out@) =~= pairs_view(out_old).push(pair_of(rv[i as int])));
                assert(pairs_view(out@) =~= spec_select_units(rv.take(i as int + 1)));
            }
        } else {
            proof {
                assert(pairs_view(out@) =~= spec_select_units(rv.take(i as int + 1)));
            }
        }
        i = i + 1;
    }
    proof {
        assert(rv.take(rv.len() as int) =~= rv);
    }
    out
}

// ---------------------------------------------------------------------------
// Grouping by dimension.
// ---------------------------------------------------------------------------

/// Some selected unit carries this dimension and entry.
pub open spec fn has_pair(ps: Seq<DimUnitModel>, dim: Seq<char>, e: UnitEntryModel) -> bool {
    exists|p: int| 0 <= p < ps.len() && (#[trigger] ps[p]).dimension == dim && ps[p].entry == e
}

/// The entries of one dimension, in the order they were selected.
pub open spec fn entries_for(ps: Seq<DimUnitModel>, dim: Seq<char>) -> Seq<UnitEntryModel>
    decreases ps.len(),
{
    if ps.len() == 0 {
        Seq::empty()
    } else if ps[0].dimension == dim {
        seq![ps[0].entry] + entries_for(ps.skip(1), dim)
    } else {
        entries_for(ps.skip(1), dim)
    }
}

/// Collecting the entries of one dimension distributes over concatenation.
pub proof fn lemma_entries_concat(a: Seq<DimUnitModel>, b: Seq<DimUnitModel>, dim: Seq<char>)
    ensures
        entries_for(a + b, dim) == entries_for(a, dim) + entries_for(b, dim),
    decreases a.len(),
{
    if a.len() == 0 {
        assert(a + b =~= b);
        assert(entries_for(a, dim) + entries_for(b, dim) =~= entries_for(b, dim));
    } else {
        lemma_entries_concat(a.skip(1), b, dim);
        assert((a + b).skip(1) =~= a.skip(1) + b);
        assert(entries_for(a + b, dim) =~= entries_for(a, dim) + entries_for(b, dim));
    }
}

/// The entries of a dimension are exactly what its selected units carry:
/// each collected entry comes from a selected unit of that dimension, and
/// each selected unit of that dimension is collected.
pub proof fn lemma_entries_faithful(ps: Seq<DimUnitModel>, dim: Seq<char>)
    ensures
        forall|k: int|
            0 <= k < entries_for(ps, dim).len() ==> has_pair(
                ps,
                dim,
                #[trigger] entries_for(ps, dim)[k],
            ),
        forall|p: int|
            0 <= p < ps.len() && (#[trigger] ps[p]).dimension == dim ==> entries_for(
                ps,
                dim,
            ).contains(ps[p].entry),
    decreases ps.len(),
{
    if ps.len() > 0 {
        lemma_entries_faithful(ps.skip(1), dim);
        let es = entries_for(ps, dim);
        let tail = entries_for(ps.skip(1), dim);
        assert forall|k: int| 0 <= k < es.len() implies has_pair(ps, dim, #[trigger] es[k]) by {
            if ps[0].dimension == dim && k == 0 {
                assert((#[trigger] ps[0]).dimension == dim && ps[0].entry == es[0]);
            } else {
                let off: int = if ps[0].dimension == dim { 1 } else { 0 };
                assert(es[k] == tail[k - off]);
                assert(has_pair(ps.skip(1), dim, tail[k - off]));
                let q = choose|q: int|
                    0 <= q < ps.skip(1).len() && (#[trigger] ps.skip(1)[q]).dimension == dim
                        && ps.skip(1)[q].entry == tail[k - off];
                assert((#[trigger] ps[q + 1]).dimension == dim && ps[q + 1].entry == es[k]);
            }
        }
        assert forall|p: int|
            0 <= p < ps.len() && (#[trigger] ps[p]).dimension == dim implies entries_for(
            ps,
            dim,
        ).contains(ps[p].entry) by {
            if p == 0 {
                assert(es[0] == ps[0].entry);
            } else {
                assert(ps.skip(1)[p - 1] == ps[p]);
                assert(tail.contains(ps[p].entry));
                let k = choose|k: int| 0 <= k < tail.len() && tail[k] == ps[p].entry;
                let off: int = if ps[0].dimension == dim { 1 } else { 0 };
                assert(es[k + off] == tail[k]);
            }
        }
    }
}

/// Some group carries this dimension.
pub open spec fn dim_has_group(gs: Seq<UnitGroup>, dim: Seq<char>) -> bool {
    exists|g: int| 0 <= g < gs.len() && (#[trigger] gs[g]).dimension@ == dim
}

/// The groups of one ordering carry a dimension exactly when those of a
/// reordering do.
pub proof fn lemma_dim_has_group_permuted(a: Seq<UnitGroup>, b: Seq<UnitGroup>, dim: Seq<char>)
    requires
        a.to_multiset() == b.to_multiset(),
        dim_has_group(a, dim),
    ensures
        dim_has_group(b, dim),
{
    let g0 = choose|g: int| 0 <= g < a.len() && (#[trigger] a[g]).dimension@ == dim;
    assert(a.contains(a[g0]));
    assert(a.to_multiset().count(a[g0]) > 0);
    assert(b.contains(a[g0]));
    let g1 = choose|g: int| 0 <= g < b.len() && b[g] == a[g0];
    assert((#[trigger] b[g1]).dimension@ == dim);
}

/// Whether some group already carries this dimension.
fn dim_present(groups: &Vec<UnitGroup>, dim: &str) -> (r: bool)
    ensures
        r == dim_has_group(groups@, dim@),
{
    let mut g: usize = 0;
    while g < groups.len()
        invariant
            g <= groups@.len(),
            forall|k: int| 0 <= k < g ==> (#[trigger] groups@[k]).dimension@ != dim@,
        decreases groups@.len() - g,
    {
        if crate::order::str_eq(groups[g].dimension.as_str(), dim) {
            return true;
        }
        g = g + 1;
    }
    false
}

/// The entries of one dimension, on concrete values.
fn collect_entries(pairs: &Vec<DimUnit>, dim: &str) -> (r: Vec<UnitEntry>)
    ensures
        r@.map_values(|u: UnitEntry| u@) == entries_for(pairs_view(pairs@), dim@),
{
    let ghost pv = pairs_view(pairs@);
    let mut out: Vec<UnitEntry> = Vec::new();
    let mut i: usize = 0;
    proof {
        assert(entries_for(pv.take(0), dim@) =~= Seq::<UnitEntryModel>::empty());
        assert(out@.map_values(|u: UnitEntry| u@) =~= entries_for(pv.take(0), dim@));
    }
    while i < pairs.len()
        invariant
            pv == pairs_view(pairs@),
            pv.len() == pairs@.len(),
            i <= pv.len(),
            out@.map_values(|u: UnitEntry| u@) == entries_for(pv.take(i as int), dim@),
        decreases pv.len() - i,
    {
        proof {
            assert(pv.take(i as int + 1) =~= pv.take(i as int) + seq![pv[i as int]]);
            lemma_entries_concat(pv.take(i as int), seq![pv[i as int]], dim@);
            assert(seq![pv[i as int]].skip(1) =~= Seq::<DimUnitModel>::empty());
            assert(entries_for(Seq::<DimUnitModel>::empty(), dim@) == Seq::<UnitEntryModel>::empty());
            if pv[i as int].dimension == dim@ {
                assert(entries_for(seq![pv[i as int]], dim@) =~= seq![pv[i as int].entry]);
            } else {
                assert(entries_for(seq![pv[i as int]], dim@) =~= Seq::<UnitEntryModel>::empty());
            }
            assert(pv[i as int] == pairs@[i as int]@);
        }
        if crate::order::str_eq(pairs[i].dimension.as_str(), dim) {
            let ghost out_old = out@;
            out.push(pairs[i].entry.duplicate());
            proof {
                assert(out@.map_values(|u: UnitEntry| u@) =~= out_old.map_values(
                    |u: UnitEntry| u@,
                ).push(pv[i as int].entry));
                assert(out@.map_values(|u: UnitEntry| u@) =~= entries_for(
                    pv.take(i as int + 1),
                    dim@,
                ));
            }
        } else {
            proof {
                assert(out@.map_values(|u: UnitEntry| u@) =~= entries_for(
                    pv.take(i as int + 1),
                    dim@,
                ));
            }
        }
        i = i + 1;
    }
    proof {
        assert(pv.take(pv.len() as int) =~= pv);
    }
    out
}

/// Group the selected units: one group per dimension, carrying exactly that
/// dimension's entries in selection order; every selected unit's dimension
/// has its group.
pub fn group_units(pairs: &Vec<DimUnit>) -> (r: Vec<UnitGroup>)
    ensures
        forall|a: int, b: int|
            0 <= a < b < r@.len() ==> (#[trigger] r@[a]).dimension@ != (#[trigger] r@[b]).dimension@,
        forall|g: int|
            0 <= g < r@.len() ==> (#[trigger] r@[g]).units@.map_values(|u: UnitEntry| u@)
                == entries_for(pairs_view(pairs@), r@[g].dimension@),
        forall|p: int|
            0 <= p < pairs@.len() ==> dim_has_group(r@, (#[trigger] pairs@[p])@.dimension),
{
    let mut out: Vec<UnitGroup> = Vec::new();
    let mut i: usize = 0;
    while i < pairs.len()
        invariant
            i <= pairs@.len(),
            forall|a: int, b: int|
                0 <= a < b < out@.len() ==> (#[trigger] out@[a]).dimension@ != (#[trigger] out@[b]).dimension@,
            forall|g: int|
                0 <= g < out@.len() ==> (#[trigger] out@[g]).units@.map_values(|u: UnitEntry| u@)
                    == entries_for(pairs_view(pairs@), out@[g].dimension@),
            forall|p: int|
                0 <= p < i ==> dim_has_group(out@, (#[trigger] pairs@[p])@.dimension),
        decreases pairs@.len() - i,
    {
        let dim_ref = &pairs[i].dimension;
        let present = dim_present(&out, dim_ref.as_str());
        proof {
            assert(dim_ref@ == pairs@[i as int]@.dimension);
        }
        if !present {
            let units = collect_entries(pairs, dim_ref.as_str());
            let ghost out_old = out@;
            out.push(UnitGroup { dimension: dim_ref.clone(), units });
            proof {
                assert forall|p: int| 0 <= p < i + 1 implies dim_has_group(
                    out@,
                    (#[trigger] pairs@[p])@.dimension,
                ) by {
                    if p < i {
                        let g0 = choose|g: int|
                            0 <= g < out_old.len() && (#[trigger] out_old[g]).dimension@ == pairs@[p]@.dimension;
                        assert((#[trigger] out@[g0]).dimension@ == pairs@[p]@.dimension);
                    } else {
                        assert((#[trigger] out@[out@.len() - 1]).dimension@ == pairs@[p]@.dimension);
                    }
                }
            }
        } else {
            proof {
                assert forall|p: int| 0 <= p < i + 1 implies dim_has_group(
                    out@,
                    (#[trigger] pairs@[p])@.dimension,
                ) by {
                    if p == i {
                        assert(dim_has_group(out@, dim_ref@));
                    }
                }
            }
        }
        i = i + 1;
    }
    out
}

// ---------------------------------------------------------------------------
// The composed unit catalog.
// ---------------------------------------------------------------------------

/// Two entries that sort as equivalent have the same display name.
pub proof fn lemma_equivalent_display(a: UnitEntry, b: UnitEntry)
    requires
        crate::order::equivalent(a, b),
    ensures
        a.display_name@ == b.display_name@,
{
    crate::order::lemma_lex_trichotomy(a.display_name@, b.display_name@);
}

/// A finished unit group for a selection: its entries are strictly sorted by
/// display name, each comes from a selected unit of the group's dimension,
/// and every selected unit of that dimension is represented by display name.
pub open spec fn group_ok(g: UnitGroup, psel: Seq<DimUnitModel>) -> bool {
    &&& crate::order::strictly_sorted(g.units@)
    &&& forall|k: int|
        0 <= k < g.units@.len() ==> has_pair(psel, g.dimension@, (#[trigger] g.units@[k])@)
    &&& forall|p: int|
        0 <= p < psel.len() && (#[trigger] psel[p]).dimension == g.dimension@ ==> exists|k: int|
            0 <= k < g.units@.len() && (#[trigger] g.units@[k])@.display_name
                == psel[p].entry.display_name
}

/// Build the unit catalog from raw engine metadata: eligible units only,
/// named canonically, grouped by dimension, each group sorted by display
/// name with duplicate display names removed, groups in priority order and
/// then alphabetically. Every entry stems from the selection, and every
/// selected unit is represented in its group.
#[verifier::rlimit(80)]
pub fn build_unit_groups(raw: &Vec<RawUnit>) -> (r: Vec<UnitGroup>)
    ensures
        crate::order::sorted(r@),
        forall|a: int, b: int|
            0 <= a < b < r@.len() ==> (#[trigger] r@[a]).dimension@ != (#[trigger] r@[b]).dimension@,
        forall|g: int| 0 <= g < r@.len() ==> group_ok(#[trigger] r@[g], spec_select_units(raws_view(raw@))),
        forall|p: int|
            0 <= p < spec_select_units(raws_view(raw@)).len() ==> dim_has_group(
                r@,
                (#[trigger] spec_select_units(raws_view(raw@))[p]).dimension,
            ),
{
    let ghost psel = spec_select_units(raws_view(raw@));
    let pairs = select_units(raw);
    let grouped = group_units(&pairs);
    let ghost grouped0 = grouped@;
    let mut rest = grouped;
    let mut done: Vec<UnitGroup> = Vec::new();
    while rest.len() > 0
        invariant
            psel == spec_select_units(raws_view(raw@)),
            psel == pairs_view(pairs@),
            done@.len() + rest@.len() == grouped0.len(),
            forall|x: int| 0 <= x < done@.len() ==> (#[trigger] done@[x]).dimension@
                == grouped0[x].dimension@,
            forall|x: int|
                done@.len() <= x < grouped0.len() ==> rest@[x - done@.len()] == #[trigger] grouped0[x],
            forall|a: int, b: int|
                0 <= a < b < grouped0.len() ==> (#[trigger] grouped0[a]).dimension@ != (
                #[trigger] grouped0[b]).dimension@,
            forall|g: int|
                0 <= g < grouped0.len() ==> (#[trigger] grouped0[g]).units@.map_values(
                    |u: UnitEntry| u@,
                ) == entries_for(psel, grouped0[g].dimension@),
            forall|x: int| 0 <= x < done@.len() ==> group_ok(#[trigger] done@[x], psel),
        decreases rest@.len(),
    {
        let g = rest.remove(0);
        let ghost x: int = done@.len() as int;
        proof {
            assert(g == grouped0[x]);
        }
        let dim = g.dimension;
        let sorted_units = crate::order::sort(g.units);
        let final_units = crate::order::dedup_sorted(sorted_units);
        let ghost orig_units = grouped0[x].units@;
        proof {
            lemma_entries_faithful(psel, dim@);
            // every kept entry is one of the original entries of this dimension
            assert forall|k: int|
                0 <= k < final_units@.len() implies has_pair(psel, dim@, (
                #[trigger] final_units@[k])@) by {
                assert(sorted_units@.contains(final_units@[k]));
                assert(sorted_units@.to_multiset().count(final_units@[k]) > 0);
                assert(orig_units.contains(final_units@[k]));
                let j = choose|j: int| 0 <= j < orig_units.len() && orig_units[j] == final_units@[k];
                assert(orig_units.map_values(|u: UnitEntry| u@)[j] == final_units@[k]@);
                assert(entries_for(psel, dim@)[j] == final_units@[k]@);
            }
            // every selected unit of this dimension is represented
            assert forall|p: int|
                0 <= p < psel.len() && (#[trigger] psel[p]).dimension == dim@ implies exists|k: int|
                    0 <= k < final_units@.len() && (#[trigger] final_units@[k])@.display_name
                        == psel[p].entry.display_name by {
                assert(entries_for(psel, dim@).contains(psel[p].entry));
                let j = choose|j: int|
                    0 <= j < entries_for(psel, dim@).len() && entries_for(psel, dim@)[j]
                        == psel[p].entry;
                assert(orig_units.map_values(|u: UnitEntry| u@)[j] == psel[p].entry);
                // the original entry is in the sorted vector
                assert(orig_units.contains(orig_units[j]));
                assert(orig_units.to_multiset().count(orig_units[j]) > 0);
                assert(sorted_units@.contains(orig_units[j]));
                let m = choose|m: int|
                    0 <= m < sorted_units@.len() && sorted_units@[m] == orig_units[j];
                assert(crate::order::covered(sorted_units@[m], final_units@));
                let k = choose|k: int|
                    0 <= k < final_units@.len() && crate::order::equivalent(
                        sorted_units@[m],
                        #[trigger] final_units@[k],
                    );
                lemma_equivalent_display(sorted_units@[m], final_units@[k]);
                assert(final_units@[k]@.display_name == psel[p].entry.display_name);
            }
        }
        let ghost done_old = done@;
        done.push(UnitGroup { dimension: dim, units: final_units });
        proof {
            assert forall|y: int| 0 <= y < done@.len() implies group_ok(#[trigger] done@[y], psel) by {
                if y < done@.len() - 1 {
                    assert(done@[y] == done_old[y]);
                }
            }
        }
    }
    let r = crate::order::sort(done);
    proof {
        crate::order::lemma_all_elements_permuted(
            done@,
            r@,
            |g: UnitGroup| group_ok(g, psel),
        );
        crate::order::lemma_distinct_keys_permuted(done@, r@, |g: UnitGroup| g.dimension@);
        assert forall|a: int, b: int|
            0 <= a < b < done@.len() implies (#[trigger] done@[a]).dimension@ != (
        #[trigger] done@[b]).dimension@ by {
            assert(done@[a].dimension@ == grouped0[a].dimension@);
            assert(done@[b].dimension@ == grouped0[b].dimension@);
        }
        // every selected unit's dimension still has its group after sorting
        assert forall|p: int| 0 <= p < psel.len() implies dim_has_group(
            r@,
            (#[trigger] psel[p]).dimension,
        ) by {
            let g0 = choose|g: int|
                0 <= g < grouped0.len() && (#[trigger] grouped0[g]).dimension@ == psel[p].dimension;
            assert((#[trigger] done@[g0]).dimension@ == psel[p].dimension);
            assert(dim_has_group(done@, psel[p].dimension));
            lemma_dim_has_group_permuted(done@, r@, psel[p].dimension);
        }
    }
    r
}


// ---------------------------------------------------------------------------
// Function labeling: each function is filed under the label of its origin.
// ---------------------------------------------------------------------------

/// Mathematical model of a [`FnOrigin`].
pub enum FnOriginModel {
    Session,
    Builtin,
    Module(Seq<Seq<char>>),
    SourceFile(Seq<char>),
}

impl View for FnOrigin {
    type V = FnOriginModel;

    open spec fn view(&self) -> FnOriginModel {
        match self {
            FnOrigin::Session => FnOriginModel::Session,
            FnOrigin::Builtin => FnOriginModel::Builtin,
            FnOrigin::Module(parts) => FnOriginModel::Module(parts.deep_view()),
            FnOrigin::SourceFile(base) => FnOriginModel::SourceFile(base@),
        }
    }
}

/// Mathematical model of a [`RawFunction`].
pub struct RawFunctionModel {
    pub fn_name: Seq<char>,
    pub name: Option<Seq<char>>,
    pub signature: Seq<char>,
    pub description: Option<Seq<char>>,
    pub origin: FnOriginModel,
}

impl View for RawFunction {
    type V = RawFunctionModel;

    open spec fn view(&self) -> RawFunctionModel {
        RawFunctionModel {
            fn_name: self.fn_name@,
            name: match self.name {
                Some(ref n) => Some(n@),
                None => None,
            },
            signature: self.signature@,
            description: match self.description {
                Some(ref d) => Some(d@),
                None => None,
            },
            origin: self.origin@,
        }
    }
}

/// A module path joined onto an accumulated label.
pub open spec fn join_from(acc: Seq<char>, rest: Seq<Seq<char>>) -> Seq<char>
    decreases rest.len(),
{
    if rest.len() == 0 {
        acc
    } else {
        join_from(acc + "::"@ + rest[0], rest.skip(1))
    }
}

/// A module path as one label, its components separated by `::`.
pub open spec fn spec_join_path(parts: Seq<Seq<char>>) -> Seq<char> {
    if parts.len() == 0 {
        Seq::empty()
    } else {
        join_from(parts[0], parts.skip(1))
    }
}

/// The label a function is filed under: its module path, `User-defined` for
/// session input, `Internal` for built-ins, or the base name of its source
/// file.
pub open spec fn spec_label(o: FnOriginModel) -> Seq<char> {
    match o {
        FnOriginModel::Session => "User-defined"@,
        FnOriginModel::Builtin => "Internal"@,
        FnOriginModel::Module(parts) => spec_join_path(parts),
        FnOriginModel::SourceFile(base) => base,
    }
}

/// Join a module path, on concrete values.
pub fn join_path(parts: &Vec<String>) -> (r: String)
    ensures
        r@ == spec_join_path(parts.deep_view()),
{
    let ghost dv = parts.deep_view();
    if parts.len() == 0 {
        let r = String::new();
        proof {
            assert(r@ =~= spec_join_path(dv));
        }
        return r;
    }
    let mut acc = parts[0].clone();
    let mut i: usize = 1;
    while i < parts.len()
        invariant
            dv == parts.deep_view(),
            dv.len() == parts@.len(),
            1 <= i <= dv.len(),
            spec_join_path(dv) == join_from(acc@, dv.skip(i as int)),
        decreases dv.len() - i,
    {
        proof {
            assert(dv.skip(i as int)[0] == dv[i as int]);
            assert(dv.skip(i as int).skip(1) =~= dv.skip(i as int + 1));
            assert(dv[i as int] == parts@[i as int]@);
        }
        acc.append("::");
        acc.append(parts[i].as_str());
        i = i + 1;
    }
    proof {
        assert(dv.skip(dv.len() as int) =~= Seq::<Seq<char>>::empty());
    }
    acc
}

/// The label a function is filed under, on concrete values.
pub fn origin_label(o: &FnOrigin) -> (r: String)
    ensures
        r@ == spec_label(o@),
{
    match o {
        FnOrigin::Session => String::from_str("User-defined"),
        FnOrigin::Builtin => String::from_str("Internal"),
        FnOrigin::Module(parts) => join_path(parts),
        FnOrigin::SourceFile(base) => base.clone(),
    }
}

/// One function, filed under its label.
pub struct LabeledFunction {
    pub module: String,
    pub entry: FunctionEntry,
}

/// Mathematical model of a [`LabeledFunction`].
pub struct LabeledFunctionModel {
    pub module: Seq<char>,
    pub entry: FunctionEntryModel,
}

impl View for LabeledFunction {
    type V = LabeledFunctionModel;

    open spec fn view(&self) -> LabeledFunctionModel {
        LabeledFunctionModel { module: self.module@, entry: self.entry@ }
    }
}

impl FunctionEntry {
    /// A copy equal to this entry.
    pub fn duplicate(&self) -> (r: FunctionEntry)
        ensures
            r@ == self@,
    {
        FunctionEntry {
            fn_name: self.fn_name.clone(),
            name: match &self.name {
                Some(n) => Some(n.clone()),
                None => None,
            },
            signature: self.signature.clone(),
            description: match &self.description {
                Some(d) => Some(d.clone()),
                None => None,
            },
        }
    }
}

/// The catalog entry of a raw function.
pub open spec fn fentry_of(f: RawFunctionModel) -> FunctionEntryModel {
    FunctionEntryModel {
        fn_name: f.fn_name,
        name: f.name,
        signature: f.signature,
        description: f.description,
    }
}

/// The labeled function of a raw function.
pub open spec fn labeled_of(f: RawFunctionModel) -> LabeledFunctionModel {
    LabeledFunctionModel { module: spec_label(f.origin), entry: fentry_of(f) }
}

/// View of a sequence of labeled functions.
pub open spec fn lfs_view(s: Seq<LabeledFunction>) -> Seq<LabeledFunctionModel> {
    s.map_values(|p: LabeledFunction| p@)
}

/// File each raw function under its label.
pub fn label_functions(raw: &Vec<RawFunction>) -> (r: Vec<LabeledFunction>)
    ensures
        r@.len() == raw@.len(),
        forall|i: int| 0 <= i < r@.len() ==> (#[trigger] r@[i])@ == labeled_of(raw@[i]@),
{
    let mut out: Vec<LabeledFunction> = Vec::new();
    let mut i: usize = 0;
    while i < raw.len()
        invariant
            i <= raw@.len(),
            out@.len() == i,
            forall|k: int| 0 <= k < i ==> (#[trigger] out@[k])@ == labeled_of(raw@[k]@),
        decreases raw@.len() - i,
    {
        let f = &raw[i];
        out.push(
            LabeledFunction {
                module: origin_label(&f.origin),
                entry: FunctionEntry {
                    fn_name: f.fn_name.clone(),
                    name: match &f.name {
                        Some(n) => Some(n.clone()),
                        None => None,
                    },
                    signature: f.signature.clone(),
                    description: match &f.description {
                        Some(d) => Some(d.clone()),
                        None => None,
                    },
                },
            },
        );
        i = i + 1;
    }
    out
}

// ---------------------------------------------------------------------------
// Grouping by label.
// ---------------------------------------------------------------------------

/// The entries of one label, in the order they were given.
pub open spec fn fentries_for(ps: Seq<LabeledFunctionModel>, label: Seq<char>) -> Seq<
    FunctionEntryModel,
>
    decreases ps.len(),
{
    if ps.len() == 0 {
        Seq::empty()
    } else if ps[0].module == label {
        seq![ps[0].entry] + fentries_for(ps.skip(1), label)
    } else {
        fentries_for(ps.skip(1), label)
    }
}

/// Collecting the entries of one label distributes over concatenation.
pub proof fn lemma_fentries_concat(
    a: Seq<LabeledFunctionModel>,
    b: Seq<LabeledFunctionModel>,
    label: Seq<char>,
)
    ensures
        fentries_for(a + b, label) == fentries_for(a, label) + fentries_for(b, label),
    decreases a.len(),
{
    if a.len() == 0 {
        assert(a + b =~= b);
        assert(fentries_for(a, label) + fentries_for(b, label) =~= fentries_for(b, label));
    } else {
        lemma_fentries_concat(a.skip(1), b, label);
        assert((a + b).skip(1) =~= a.skip(1) + b);
        assert(fentries_for(a + b, label) =~= fentries_for(a, label) + fentries_for(b, label));
    }
}

/// Some group carries this label.
pub open spec fn label_has_group(gs: Seq<FunctionGroup>, label: Seq<char>) -> bool {
    exists|g: int| 0 <= g < gs.len() && (#[trigger] gs[g]).module@ == label
}

/// The groups of one ordering carry a label exactly when those of a
/// reordering do.
pub proof fn lemma_label_has_group_permuted(
    a: Seq<FunctionGroup>,
    b: Seq<FunctionGroup>,
    label: Seq<char>,
)
    requires
        a.to_multiset() == b.to_multiset(),
        label_has_group(a, label),
    ensures
        label_has_group(b, label),
{
    let g0 = choose|g: int| 0 <= g < a.len() && (#[trigger] a[g]).module@ == label;
    assert(a.contains(a[g0]));
    assert(a.to_multiset().count(a[g0]) > 0);
    assert(b.contains(a[g0]));
    let g1 = choose|g: int| 0 <= g < b.len() && b[g] == a[g0];
    assert((#[trigger] b[g1]).module@ == label);
}

/// Whether some group already carries this label.
fn label_present(groups: &Vec<FunctionGroup>, label: &str) -> (r: bool)
    ensures
        r == label_has_group(groups@, label@),
{
    let mut g: usize = 0;
    while g < groups.len()
        invariant
            g <= groups@.len(),
            forall|k: int| 0 <= k < g ==> (#[trigger] groups@[k]).module@ != label@,
        decreases groups@.len() - g,
    {
        if crate::order::str_eq(groups[g].module.as_str(), label) {
            return true;
        }
        g = g + 1;
    }
    false
}

/// The entries of one label, on concrete values.
fn collect_fentries(lfs: &Vec<LabeledFunction>, label: &str) -> (r: Vec<FunctionEntry>)
    ensures
        r@.map_values(|u: FunctionEntry| u@) == fentries_for(lfs_view(lfs@), label@),
{
    let ghost pv = lfs_view(lfs@);
    let mut out: Vec<FunctionEntry> = Vec::new();
    let mut i: usize = 0;
    proof {
        assert(fentries_for(pv.take(0), label@) =~= Seq::<FunctionEntryModel>::empty());
        assert(out@.map_values(|u: FunctionEntry| u@) =~= fentries_for(pv.take(0), label@));
    }
    while i < lfs.len()
        invariant
            pv == lfs_view(lfs@),
            pv.len() == lfs@.len(),
            i <= pv.len(),
            out@.map_values(|u: FunctionEntry| u@) == fentries_for(pv.take(i as int), label@),
        decreases pv.len() - i,
    {
        proof {
            assert(pv.take(i as int + 1) =~= pv.take(i as int) + seq![pv[i as int]]);
            lemma_fentries_concat(pv.take(i as int), seq![pv[i as int]], label@);
            assert(seq![pv[i as int]].skip(1) =~= Seq::<LabeledFunctionModel>::empty());
            assert(fentries_for(Seq::<LabeledFunctionModel>::empty(), label@) == Seq::<
                FunctionEntryModel,
            >::empty());
            if pv[i as int].module == label@ {
                assert(fentries_for(seq![pv[i as int]], label@) =~= seq![pv[i as int].entry]);
            } else {
                assert(fentries_for(seq![pv[i as int]], label@) =~= Seq::<
                    FunctionEntryModel,
                >::empty());
            }
            assert(pv[i as int] == lfs@[i as int]@);
        }
        if crate::order::str_eq(lfs[i].module.as_str(), label) {
            let ghost out_old = out@;
            out.push(lfs[i].entry.duplicate());
            proof {
                assert(out@.map_values(|u: FunctionEntry| u@) =~= out_old.map_values(
                    |u: FunctionEntry| u@,
                ).push(pv[i as int].entry));
                assert(out@.map_values(|u: FunctionEntry| u@) =~= fentries_for(
                    pv.take(i as int + 1),
                    label@,
                ));
            }
        } else {
            proof {
                assert(out@.map_values(|u: FunctionEntry| u@) =~= fentries_for(
                    pv.take(i as int + 1),
                    label@,
                ));
            }
        }
        i = i + 1;
    }
    proof {
        assert(pv.take(pv.len() as int) =~= pv);
    }
    out
}

/// Group the labeled functions: one group per label, carrying exactly that
/// label's entries in the given order; every label has its group.
pub fn group_functions(lfs: &Vec<LabeledFunction>) -> (r: Vec<FunctionGroup>)
    ensures
        forall|a: int, b: int|
            0 <= a < b < r@.len() ==> (#[trigger] r@[a]).module@ != (#[trigger] r@[b]).module@,
        forall|g: int|
            0 <= g < r@.len() ==> (#[trigger] r@[g]).functions@.map_values(|u: FunctionEntry| u@)
                == fentries_for(lfs_view(lfs@), r@[g].module@),
        forall|p: int|
            0 <= p < lfs@.len() ==> label_has_group(r@, (#[trigger] lfs@[p])@.module),
{
    let mut out: Vec<FunctionGroup> = Vec::new();
    let mut i: usize = 0;
    while i < lfs.len()
        invariant
            i <= lfs@.len(),
            forall|a: int, b: int|
                0 <= a < b < out@.len() ==> (#[trigger] out@[a]).module@ != (#[trigger] out@[b]).module@,
            forall|g: int|
                0 <= g < out@.len() ==> (#[trigger] out@[g]).functions@.map_values(
                    |u: FunctionEntry| u@,
                ) == fentries_for(lfs_view(lfs@), out@[g].module@),
            forall|p: int| 0 <= p < i ==> label_has_group(out@, (#[trigger] lfs@[p])@.module),
        decreases lfs@.len() - i,
    {
        let label_ref = &lfs[i].module;
        let present = label_present(&out, label_ref.as_str());
        proof {
            assert(label_ref@ == lfs@[i as int]@.module);
        }
        if !present {
            let functions = collect_fentries(lfs, label_ref.as_str());
            let ghost out_old = out@;
            out.push(FunctionGroup { module: label_ref.clone(), functions });
            proof {
                assert forall|p: int| 0 <= p < i + 1 implies label_has_group(
                    out@,
                    (#[trigger] lfs@[p])@.module,
                ) by {
                    if p < i {
                        let g0 = choose|g: int|
                            0 <= g < out_old.len() && (#[trigger] out_old[g]).module@ == lfs@[p]@.module;
                        assert((#[trigger] out@[g0]).module@ == lfs@[p]@.module);
                    } else {
                        assert((#[trigger] out@[out@.len() - 1]).module@ == lfs@[p]@.module);
                    }
                }
            }
        } else {
            proof {
                assert forall|p: int| 0 <= p < i + 1 implies label_has_group(
                    out@,
                    (#[trigger] lfs@[p])@.module,
                ) by {
                    if p == i {
                        assert(label_has_group(out@, label_ref@));
                    }
                }
            }
        }
        i = i + 1;
    }
    out
}

/// A finished function group for a labeling: its entries are sorted by
/// internal name, and they are exactly that label's entries.
pub open spec fn fn_group_ok(g: FunctionGroup, fsel: Seq<LabeledFunctionModel>) -> bool {
    &&& crate::order::sorted(g.functions@)
    &&& forall|k: int|
        0 <= k < g.functions@.len() ==> fentries_for(fsel, g.module@).contains(
            (#[trigger] g.functions@[k])@,
        )
    &&& forall|e: FunctionEntryModel|
        #[trigger] fentries_for(fsel, g.module@).contains(e) ==> exists|k: int|
            0 <= k < g.functions@.len() && (#[trigger] g.functions@[k])@ == e
}

/// The labeling of the given raw functions.
pub open spec fn spec_labeling(raw: Seq<RawFunction>) -> Seq<LabeledFunctionModel> {
    raw.map_values(|f: RawFunction| labeled_of(f@))
}

/// Build the function catalog from raw engine metadata: functions filed
/// under their origin's label, each group sorted by internal name, groups
/// sorted by label; each group holds exactly its label's functions.
#[verifier::rlimit(80)]
pub fn build_function_groups(raw: &Vec<RawFunction>) -> (r: Vec<FunctionGroup>)
    ensures
        crate::order::sorted(r@),
        forall|a: int, b: int|
            0 <= a < b < r@.len() ==> (#[trigger] r@[a]).module@ != (#[trigger] r@[b]).module@,
        forall|g: int| 0 <= g < r@.len() ==> fn_group_ok(#[trigger] r@[g], spec_labeling(raw@)),
        forall|p: int|
            0 <= p < raw@.len() ==> label_has_group(
                r@,
                spec_label((#[trigger] raw@[p])@.origin),
            ),
{
    let ghost fsel = spec_labeling(raw@);
    let lfs = label_functions(raw);
    proof {
        assert(lfs_view(lfs@) =~= fsel);
    }
    let grouped = group_functions(&lfs);
    let ghost grouped0 = grouped@;
    let mut rest = grouped;
    let mut done: Vec<FunctionGroup> = Vec::new();
    while rest.len() > 0
        invariant
            fsel == spec_labeling(raw@),
            fsel == lfs_view(lfs@),
            done@.len() + rest@.len() == grouped0.len(),
            forall|x: int|
                0 <= x < done@.len() ==> (#[trigger] done@[x]).module@ == grouped0[x].module@,
            forall|x: int|
                done@.len() <= x < grouped0.len() ==> rest@[x - done@.len()] == #[trigger] grouped0[x],
            forall|a: int, b: int|
                0 <= a < b < grouped0.len() ==> (#[trigger] grouped0[a]).module@ != (
                #[trigger] grouped0[b]).module@,
            forall|g: int|
                0 <= g < grouped0.len() ==> (#[trigger] grouped0[g]).functions@.map_values(
                    |u: FunctionEntry| u@,
                ) == fentries_for(fsel, grouped0[g].module@),
            forall|x: int| 0 <= x < done@.len() ==> fn_group_ok(#[trigger] done@[x], fsel),
        decreases rest@.len(),
    {
        let g = rest.remove(0);
        let ghost x: int = done@.len() as int;
        proof {
            assert(g == grouped0[x]);
        }
        let label = g.module;
        let final_units = crate::order::sort(g.functions);
        let ghost orig_units = grouped0[x].functions@;
        proof {
            assert forall|k: int|
                0 <= k < final_units@.len() implies fentries_for(fsel, label@).contains(
                (#[trigger] final_units@[k])@,
            ) by {
                assert(final_units@.contains(final_units@[k]));
                assert(final_units@.to_multiset().count(final_units@[k]) > 0);
                assert(orig_units.contains(final_units@[k]));
                let j = choose|j: int| 0 <= j < orig_units.len() && orig_units[j] == final_units@[k];
                assert(orig_units.map_values(|u: FunctionEntry| u@)[j] == final_units@[k]@);
            }
            assert forall|e: FunctionEntryModel|
                #[trigger] fentries_for(fsel, label@).contains(e) implies exists|k: int|
                    0 <= k < final_units@.len() && (#[trigger] final_units@[k])@ == e by {
                let j = choose|j: int|
                    0 <= j < fentries_for(fsel, label@).len() && fentries_for(fsel, label@)[j] == e;
                assert(orig_units.map_values(|u: FunctionEntry| u@)[j] == e);
                assert(orig_units.contains(orig_units[j]));
                assert(orig_units.to_multiset().count(orig_units[j]) > 0);
                assert(final_units@.contains(orig_units[j]));
                let k = choose|k: int|
                    0 <= k < final_units@.len() && final_units@[k] == orig_units[j];
                assert((#[trigger] final_units@[k])@ == e);
            }
        }
        let ghost done_old = done@;
        done.push(FunctionGroup { module: label, functions: final_units });
        proof {
            assert forall|y: int| 0 <= y < done@.len() implies fn_group_ok(
                #[trigger] done@[y],
                fsel,
            ) by {
                if y < done@.len() - 1 {
                    assert(done@[y] == done_old[y]);
                }
            }
        }
    }
    let r = crate::order::sort(done);
    proof {
        crate::order::lemma_all_elements_permuted(
            done@,
            r@,
            |g: FunctionGroup| fn_group_ok(g, fsel),
        );
        crate::order::lemma_distinct_keys_permuted(done@, r@, |g: FunctionGroup| g.module@);
        assert forall|a: int, b: int|
            0 <= a < b < done@.len() implies (#[trigger] done@[a]).module@ != (
        #[trigger] done@[b]).module@ by {
            assert(done@[a].module@ == grouped0[a].module@);
            assert(done@[b].module@ == grouped0[b].module@);
        }
        assert forall|p: int| 0 <= p < raw@.len() implies label_has_group(
            r@,
            spec_label((#[trigger] raw@[p])@.origin),
        ) by {
            assert(lfs@[p]@ == labeled_of(raw@[p]@));
            assert(lfs@[p]@.module == spec_label(raw@[p]@.origin));
            let g0 = choose|g: int|
                0 <= g < grouped0.len() && (#[trigger] grouped0[g]).module@ == lfs@[p]@.module;
            assert((#[trigger] done@[g0]).module@ == lfs@[p]@.module);
            assert(label_has_group(done@, lfs@[p]@.module));
            lemma_label_has_group_permuted(done@, r@, lfs@[p]@.module);
        }
    }
    r
}

// ---------------------------------------------------------------------------
// Constants.
// ---------------------------------------------------------------------------

/// Some given name reads as this text.
pub open spec fn names_contain(names: Seq<String>, n: Seq<char>) -> bool {
    exists|j: int| 0 <= j < names.len() && (#[trigger] names[j])@ == n
}

/// Some entry carries this name.
pub open spec fn entries_contain(es: Seq<ConstantEntry>, n: Seq<char>) -> bool {
    exists|i: int| 0 <= i < es.len() && (#[trigger] es[i])@ == n
}

/// Two constants that sort as equivalent carry the same name.
pub proof fn lemma_equivalent_constant_names(a: ConstantEntry, b: ConstantEntry)
    requires
        crate::order::equivalent(a, b),
    ensures
        a@ == b@,
{
    crate::order::lemma_lex_trichotomy(a.name@, b.name@);
}

/// The given names as constant entries, sorted lexicographically ascending
/// and duplicate-free: every entry is a given name, every given name has
/// its entry, and no name appears twice.
pub fn sorted_constants(names: Vec<String>) -> (r: Vec<ConstantEntry>)
    ensures
        crate::order::strictly_sorted(r@),
        forall|i: int, j: int| 0 <= i < j < r@.len() ==> (#[trigger] r@[i])@ != (#[trigger] r@[j])@,
        forall|i: int| 0 <= i < r@.len() ==> names_contain(names@, (#[trigger] r@[i])@),
        forall|j: int| 0 <= j < names@.len() ==> entries_contain(r@, (#[trigger] names@[j])@),
{
    let mut entries: Vec<ConstantEntry> = Vec::new();
    let mut i: usize = 0;
    while i < names.len()
        invariant
            i <= names@.len(),
            entries@.len() == i,
            forall|k: int| 0 <= k < i ==> (#[trigger] entries@[k])@ == names@[k]@,
        decreases names@.len() - i,
    {
        entries.push(ConstantEntry { name: names[i].clone() });
        i = i + 1;
    }
    let ghost es = entries@;
    let sorted_entries = crate::order::sort(entries);
    let ghost se = sorted_entries@;
    let r = crate::order::dedup_sorted(sorted_entries);
    proof {
        assert forall|a: int, b: int|
            0 <= a < b < r@.len() implies (#[trigger] r@[a])@ != (#[trigger] r@[b])@ by {
            if r@[a]@ == r@[b]@ {
                assert(r@[a].before(&r@[b]));
                crate::order::lemma_lex_irreflexive(r@[a].name@);
            }
        }
        assert forall|i2: int| 0 <= i2 < r@.len() implies names_contain(
            names@,
            (#[trigger] r@[i2])@,
        ) by {
            assert(se.contains(r@[i2]));
            assert(se.to_multiset().count(r@[i2]) > 0);
            assert(es.contains(r@[i2]));
            let k = choose|k: int| 0 <= k < es.len() && es[k] == r@[i2];
            assert((#[trigger] names@[k])@ == r@[i2]@);
        }
        assert forall|j: int| 0 <= j < names@.len() implies entries_contain(
            r@,
            (#[trigger] names@[j])@,
        ) by {
            assert(es[j]@ == names@[j]@);
            assert(es.contains(es[j]));
            assert(es.to_multiset().count(es[j]) > 0);
            assert(se.contains(es[j]));
            let m = choose|m: int| 0 <= m < se.len() && se[m] == es[j];
            assert(crate::order::covered(se[m], r@));
            let k = choose|k: int|
                0 <= k < r@.len() && crate::order::equivalent(se[m], #[trigger] r@[k]);
            lemma_equivalent_constant_names(se[m], r@[k]);
            assert((#[trigger] r@[k])@ == names@[j]@);
        }
    }
    r
}

// ---------------------------------------------------------------------------
// The dispatcher's catalog operations.
// ---------------------------------------------------------------------------

/// The unit catalog of the current evaluation state: groups in priority
/// order and then alphabetically, with pairwise distinct dimensions; within
/// each group the entries strictly ascend by display name, so no two share
/// one.
pub fn get_units(ctx: &numbat::Context) -> (r: Vec<UnitGroup>)
    ensures
        crate::order::sorted(r@),
        forall|a: int, b: int|
            0 <= a < b < r@.len() ==> (#[trigger] r@[a]).dimension@ != (#[trigger] r@[b]).dimension@,
        forall|g: int| 0 <= g < r@.len() ==> crate::order::strictly_sorted(
            (#[trigger] r@[g]).units@,
        ),
{
    let raw = crate::engine::unit_catalog(ctx);
    build_unit_groups(&raw)
}

/// The function catalog of the current evaluation state: groups sorted by
/// label, with pairwise distinct labels; within each group the entries
/// ascend by internal name.
pub fn get_functions(ctx: &numbat::Context) -> (r: Vec<FunctionGroup>)
    ensures
        crate::order::sorted(r@),
        forall|a: int, b: int|
            0 <= a < b < r@.len() ==> (#[trigger] r@[a]).module@ != (#[trigger] r@[b]).module@,
        forall|g: int| 0 <= g < r@.len() ==> crate::order::sorted((#[trigger] r@[g]).functions@),
{
    let raw = crate::engine::function_catalog(ctx);
    build_function_groups(&raw)
}

/// The constants of the current evaluation state: every bound non-function
/// identifier's name, sorted lexicographically ascending, each name once —
/// the engine's list may repeat a rebound identifier, the catalog does not.
pub fn get_constants(ctx: &numbat::Context) -> (r: Vec<ConstantEntry>)
    ensures
        crate::order::strictly_sorted(r@),
        forall|i: int, j: int| 0 <= i < j < r@.len() ==> (#[trigger] r@[i])@ != (#[trigger] r@[j])@,
{
    let names = crate::engine::variable_names(ctx);
    sorted_constants(names)
}


/// No two entries of a strictly sorted group share a display name: strict
/// ascent by display name leaves no room for a repetition.
pub proof fn lemma_distinct_display_names(units: Seq<UnitEntry>)
    requires
        crate::order::strictly_sorted(units),
    ensures
        forall|i: int, j: int|
            0 <= i < j < units.len() ==> (#[trigger] units[i])@.display_name != (
            #[trigger] units[j])@.display_name,
{
    assert forall|i: int, j: int|
        0 <= i < j < units.len() implies (#[trigger] units[i])@.display_name != (
    #[trigger] units[j])@.display_name by {
        if units[i]@.display_name == units[j]@.display_name {
            assert(units[i].before(&units[j]));
            lemma_lex_irreflexive(units[i].display_name@);
        }
    }
}

} // verus!
