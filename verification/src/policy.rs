//! The policy tables of the daemon's configuration, compiled into a plan: what
//! to build, in which order, or the first error.

use crate::table::take_step;
use crate::text::{
    cat3, fail_view, lists_text, no_items, opt_view, own, push_view, read_u16, read_u32, same,
    split_once, split_once_of, trim, trim_of, u16_of, u32_of, views, words, words_of,
};
use vstd::prelude::*;
use vstd::string::*;

verus! {

/// The 32 bits of a community, from its two halves.
pub open spec fn community_bits(asn: nat, value: nat) -> u32 {
    (asn * 0x1_0000 + value) as u32
}

/// The message on a community that is not `asn:value`.
pub open spec fn pair_message(t: Seq<char>) -> Seq<char> {
    "bad community '"@ + t + "' (expected asn:value)"@
}

/// The value of a community: a well-known name, `asn:value`, or a decimal.
pub open spec fn community_of(text: Seq<char>) -> Result<u32, Seq<char>> {
    let t = trim_of(text);
    if t == "no-export"@ {
        Ok(0xFFFF_FF01u32)
    } else if t == "no-advertise"@ {
        Ok(0xFFFF_FF02u32)
    } else if t == "no-peer"@ {
        Ok(0xFFFF_FF03u32)
    } else if t == "llgr-stale"@ {
        Ok(0xFFFF_0000u32)
    } else if t == "no-llgr"@ {
        Ok(0xFFFF_0001u32)
    } else {
        match split_once_of(t, ':') {
            Some((a, v)) => match (u32_of(a), u16_of(v)) {
                (Some(asn), Some(value)) => if asn > 0xFFFF {
                    Err("bad community '"@ + t + "' (asn part exceeds 16 bits)"@)
                } else {
                    Ok(community_bits(asn as nat, value as nat))
                },
                _ => Err(pair_message(t)),
            },
            None => match u32_of(t) {
                Some(n) => Ok(n),
                None => Err(
                    "bad community '"@ + t
                        + "' (expected asn:value, decimal or well-known name)"@,
                ),
            },
        }
    }
}

/// Reads a community.
pub fn parse_community(text: &str) -> (r: Result<u32, String>)
    ensures
        fail_view(r) == community_of(text@),
{
    let t = trim(text);
    if same(t.as_str(), "no-export") {
        return Ok(0xFFFF_FF01);
    }
    if same(t.as_str(), "no-advertise") {
        return Ok(0xFFFF_FF02);
    }
    if same(t.as_str(), "no-peer") {
        return Ok(0xFFFF_FF03);
    }
    if same(t.as_str(), "llgr-stale") {
        return Ok(0xFFFF_0000);
    }
    if same(t.as_str(), "no-llgr") {
        return Ok(0xFFFF_0001);
    }
    match split_once(t.as_str(), ':') {
        Some((a, v)) => match (read_u32(a.as_str()), read_u16(v.as_str())) {
            (Some(asn), Some(value)) => if asn > 0xFFFF {
                Err(cat3("bad community '", t.as_str(), "' (asn part exceeds 16 bits)"))
            } else {
                Ok(asn * 0x1_0000 + value as u32)
            },
            _ => Err(cat3("bad community '", t.as_str(), "' (expected asn:value)")),
        },
        None => match read_u32(t.as_str()) {
            Some(n) => Ok(n),
            None => Err(
                cat3(
                    "bad community '",
                    t.as_str(),
                    "' (expected asn:value, decimal or well-known name)",
                ),
            ),
        },
    }
}

/// The halves of a community.
pub fn split_community(raw: u32) -> (r: (u32, u16))
    ensures
        r.0 == raw as nat / 0x1_0000,
        r.1 == raw as nat % 0x1_0000,
{
    (raw / 0x1_0000, (raw % 0x1_0000) as u16)
}

/// The communities that fit in 32 bits, in order.
pub open spec fn fitting(list: Seq<(u32, u16)>) -> Seq<u32>
    decreases list.len(),
{
    if list.len() == 0 {
        Seq::empty()
    } else {
        let c = list.last();
        if c.0 <= 0xFFFF {
            fitting(list.drop_last()).push(community_bits(c.0 as nat, c.1 as nat))
        } else {
            fitting(list.drop_last())
        }
    }
}

/// Packs communities; those whose AS does not fit are left out.
pub fn pack_communities(list: &Vec<(u32, u16)>) -> (r: Vec<u32>)
    ensures
        r@ == fitting(list@),
{
    let mut out: Vec<u32> = Vec::new();
    let mut i: usize = 0;
    assert(out@ =~= Seq::empty());
    while i < list.len()
        invariant
            i <= list@.len(),
            out@ == fitting(list@.take(i as int)),
        decreases list@.len() - i,
    {
        proof {
            take_step(list@, i as int);
        }
        let c: (u32, u16) = list[i];
        if c.0 <= 0xFFFF {
            out.push(c.0 * 0x1_0000 + c.1 as u32);
        }
        i += 1;
    }
    assert(list@.take(i as int) =~= list@);
    out
}

/// Splitting a packed community gives its halves back.
pub proof fn communities_split_back(asn: u16, value: u16)
    ensures
        community_bits(asn as nat, value as nat) as nat / 0x1_0000 == asn,
        community_bits(asn as nat, value as nat) as nat % 0x1_0000 == value,
{
}

/// A `[[prefix-list]]` table.
pub struct PrefixListSpec {
    pub name: String,
    pub prefix: String,
    pub ge: Option<u8>,
    pub le: Option<u8>,
    pub permit: Option<bool>,
    /// The length of the prefix, or why it is none.
    pub parsed: Result<u8, String>,
}

/// The same over text.
pub struct PrefixSpecModel {
    pub name: Seq<char>,
    pub prefix: Seq<char>,
    pub ge: Option<u8>,
    pub le: Option<u8>,
    pub permit: Option<bool>,
    pub parsed: Result<u8, Seq<char>>,
}

impl View for PrefixListSpec {
    type V = PrefixSpecModel;

    open spec fn view(&self) -> PrefixSpecModel {
        PrefixSpecModel {
            name: self.name@,
            prefix: self.prefix@,
            ge: self.ge,
            le: self.le,
            permit: self.permit,
            parsed: fail_view(self.parsed),
        }
    }
}

/// An `[[as-path-list]]` table.
pub struct AsPathListSpec {
    pub name: String,
    pub pattern: String,
    pub permit: Option<bool>,
}

/// The same over text.
pub struct AsPathSpecModel {
    pub name: Seq<char>,
    pub pattern: Seq<char>,
    pub permit: Option<bool>,
}

impl View for AsPathListSpec {
    type V = AsPathSpecModel;

    open spec fn view(&self) -> AsPathSpecModel {
        AsPathSpecModel { name: self.name@, pattern: self.pattern@, permit: self.permit }
    }
}

/// A `[[community-list]]` table.
pub struct CommunityListSpec {
    pub name: String,
    pub communities: Vec<String>,
    pub permit: Option<bool>,
}

/// The same over text.
pub struct CommunitySpecModel {
    pub name: Seq<char>,
    pub communities: Seq<Seq<char>>,
    pub permit: Option<bool>,
}

impl View for CommunityListSpec {
    type V = CommunitySpecModel;

    open spec fn view(&self) -> CommunitySpecModel {
        CommunitySpecModel {
            name: self.name@,
            communities: views(self.communities@),
            permit: self.permit,
        }
    }
}

/// The next hop a route-map sets.
pub struct NextHop {
    pub text: String,
    /// Why the text is no address.
    pub fault: Option<String>,
}

/// The same over text.
pub struct NextHopModel {
    pub text: Seq<char>,
    pub fault: Option<Seq<char>>,
}

impl View for NextHop {
    type V = NextHopModel;

    open spec fn view(&self) -> NextHopModel {
        NextHopModel { text: self.text@, fault: opt_view(self.fault) }
    }
}

/// A `[[route-map]]` table: one entry of the named map.
pub struct RouteMapSpec {
    pub name: String,
    /// What entries are ordered by.
    pub entry: u32,
    pub match_prefix: Option<String>,
    pub match_as_path: Option<String>,
    pub match_community: Option<String>,
    pub set_local_pref: Option<u32>,
    pub set_med: Option<u32>,
    pub set_metric: Option<u32>,
    pub set_next_hop: Option<NextHop>,
    /// AS numbers, prepended in order.
    pub prepend: Option<String>,
    pub add_community: Option<String>,
    /// The verdict; none goes on to the next entry.
    pub permit: Option<bool>,
}

/// The same over text.
pub struct RouteSpecModel {
    pub name: Seq<char>,
    pub entry: u32,
    pub match_prefix: Option<Seq<char>>,
    pub match_as_path: Option<Seq<char>>,
    pub match_community: Option<Seq<char>>,
    pub set_local_pref: Option<u32>,
    pub set_med: Option<u32>,
    pub set_metric: Option<u32>,
    pub set_next_hop: Option<NextHopModel>,
    pub prepend: Option<Seq<char>>,
    pub add_community: Option<Seq<char>>,
    pub permit: Option<bool>,
}

impl View for RouteMapSpec {
    type V = RouteSpecModel;

    open spec fn view(&self) -> RouteSpecModel {
        RouteSpecModel {
            name: self.name@,
            entry: self.entry,
            match_prefix: opt_view(self.match_prefix),
            match_as_path: opt_view(self.match_as_path),
            match_community: opt_view(self.match_community),
            set_local_pref: self.set_local_pref,
            set_med: self.set_med,
            set_metric: self.set_metric,
            set_next_hop: opt_view(self.set_next_hop),
            prepend: opt_view(self.prepend),
            add_community: opt_view(self.add_community),
            permit: self.permit,
        }
    }
}

/// The policy tables of a configuration.
pub struct PolicyTables {
    pub prefix_lists: Vec<PrefixListSpec>,
    pub as_path_lists: Vec<AsPathListSpec>,
    pub community_lists: Vec<CommunityListSpec>,
    pub route_maps: Vec<RouteMapSpec>,
}

/// The same over text.
pub struct TablesModel {
    pub prefix_lists: Seq<PrefixSpecModel>,
    pub as_path_lists: Seq<AsPathSpecModel>,
    pub community_lists: Seq<CommunitySpecModel>,
    pub route_maps: Seq<RouteSpecModel>,
}

impl View for PolicyTables {
    type V = TablesModel;

    open spec fn view(&self) -> TablesModel {
        TablesModel {
            prefix_lists: views(self.prefix_lists@),
            as_path_lists: views(self.as_path_lists@),
            community_lists: views(self.community_lists@),
            route_maps: views(self.route_maps@),
        }
    }
}

/// A prefix-list to build.
pub struct PrefixListPlan {
    pub name: String,
    pub prefix: String,
    pub ge: u8,
    pub le: u8,
    pub permit: bool,
}

/// The same over text.
#[verifier::ext_equal]
pub struct PrefixPlanModel {
    pub name: Seq<char>,
    pub prefix: Seq<char>,
    pub ge: u8,
    pub le: u8,
    pub permit: bool,
}

impl View for PrefixListPlan {
    type V = PrefixPlanModel;

    open spec fn view(&self) -> PrefixPlanModel {
        PrefixPlanModel {
            name: self.name@,
            prefix: self.prefix@,
            ge: self.ge,
            le: self.le,
            permit: self.permit,
        }
    }
}

/// An AS-path list to build.
pub struct AsPathPlan {
    pub name: String,
    pub pattern: String,
    pub permit: bool,
}

/// The same over text.
#[verifier::ext_equal]
pub struct AsPathPlanModel {
    pub name: Seq<char>,
    pub pattern: Seq<char>,
    pub permit: bool,
}

impl View for AsPathPlan {
    type V = AsPathPlanModel;

    open spec fn view(&self) -> AsPathPlanModel {
        AsPathPlanModel { name: self.name@, pattern: self.pattern@, permit: self.permit }
    }
}

/// A community list to build.
pub struct CommunityPlan {
    pub name: String,
    pub communities: Vec<u32>,
    pub permit: bool,
}

/// The same over text.
#[verifier::ext_equal]
pub struct CommunityPlanModel {
    pub name: Seq<char>,
    pub communities: Seq<u32>,
    pub permit: bool,
}

impl View for CommunityPlan {
    type V = CommunityPlanModel;

    open spec fn view(&self) -> CommunityPlanModel {
        CommunityPlanModel {
            name: self.name@,
            communities: self.communities@,
            permit: self.permit,
        }
    }
}

/// A condition of a route-map entry: a named list.
pub enum Match {
    Prefix(String),
    AsPath(String),
    Community(String),
}

/// The same over text.
pub enum MatchModel {
    Prefix(Seq<char>),
    AsPath(Seq<char>),
    Community(Seq<char>),
}

impl View for Match {
    type V = MatchModel;

    open spec fn view(&self) -> MatchModel {
        match self {
            Match::Prefix(n) => MatchModel::Prefix(n@),
            Match::AsPath(n) => MatchModel::AsPath(n@),
            Match::Community(n) => MatchModel::Community(n@),
        }
    }
}

/// An action of a route-map entry.
pub enum SetAction {
    LocalPref(u32),
    Med(u32),
    Metric(u32),
    NextHop(String),
    PrependAs(u32),
    AddCommunity(u32),
}

/// The same over text.
pub enum SetModel {
    LocalPref(u32),
    Med(u32),
    Metric(u32),
    NextHop(Seq<char>),
    PrependAs(u32),
    AddCommunity(u32),
}

impl View for SetAction {
    type V = SetModel;

    open spec fn view(&self) -> SetModel {
        match self {
            SetAction::LocalPref(v) => SetModel::LocalPref(*v),
            SetAction::Med(v) => SetModel::Med(*v),
            SetAction::Metric(v) => SetModel::Metric(*v),
            SetAction::NextHop(t) => SetModel::NextHop(t@),
            SetAction::PrependAs(v) => SetModel::PrependAs(*v),
            SetAction::AddCommunity(v) => SetModel::AddCommunity(*v),
        }
    }
}

/// A route-map entry to build.
pub struct EntryPlan {
    pub name: String,
    pub matches: Vec<Match>,
    pub sets: Vec<SetAction>,
    pub verdict: Option<bool>,
}

/// The same over text.
#[verifier::ext_equal]
pub struct EntryModel {
    pub name: Seq<char>,
    pub matches: Seq<MatchModel>,
    pub sets: Seq<SetModel>,
    pub verdict: Option<bool>,
}

impl View for EntryPlan {
    type V = EntryModel;

    open spec fn view(&self) -> EntryModel {
        EntryModel {
            name: self.name@,
            matches: views(self.matches@),
            sets: views(self.sets@),
            verdict: self.verdict,
        }
    }
}

/// What to build, in order.
pub struct PolicyPlan {
    pub prefix_lists: Vec<PrefixListPlan>,
    pub as_path_lists: Vec<AsPathPlan>,
    pub community_lists: Vec<CommunityPlan>,
    pub entries: Vec<EntryPlan>,
}

/// The same over text.
#[verifier::ext_equal]
pub struct PlanModel {
    pub prefix_lists: Seq<PrefixPlanModel>,
    pub as_path_lists: Seq<AsPathPlanModel>,
    pub community_lists: Seq<CommunityPlanModel>,
    pub entries: Seq<EntryModel>,
}

impl View for PolicyPlan {
    type V = PlanModel;

    open spec fn view(&self) -> PlanModel {
        PlanModel {
            prefix_lists: views(self.prefix_lists@),
            as_path_lists: views(self.as_path_lists@),
            community_lists: views(self.community_lists@),
            entries: views(self.entries@),
        }
    }
}

/// A value, or what stands for it.
pub open spec fn or_else<T>(o: Option<T>, d: T) -> T {
    match o {
        Some(x) => x,
        None => d,
    }
}

/// The list of a prefix-list table.
pub open spec fn prefix_plan(s: PrefixSpecModel) -> Result<PrefixPlanModel, Seq<char>> {
    match s.parsed {
        Ok(len) => Ok(
            PrefixPlanModel {
                name: s.name,
                prefix: s.prefix,
                ge: or_else(s.ge, len),
                le: or_else(s.le, 255u8),
                permit: or_else(s.permit, true),
            },
        ),
        Err(e) => Err(
            "prefix-list '"@ + s.name + "': bad prefix '"@ + s.prefix + "': "@ + e,
        ),
    }
}

/// The lists of the prefix-list tables, or the first error.
pub open spec fn prefix_plans(ss: Seq<PrefixSpecModel>) -> Result<Seq<PrefixPlanModel>, Seq<char>>
    decreases ss.len(),
{
    if ss.len() == 0 {
        Ok(Seq::empty())
    } else {
        match prefix_plans(ss.drop_last()) {
            Err(e) => Err(e),
            Ok(before) => match prefix_plan(ss.last()) {
                Ok(p) => Ok(before.push(p)),
                Err(e) => Err(e),
            },
        }
    }
}

/// The lists of the AS-path tables.
pub open spec fn as_path_plans(ss: Seq<AsPathSpecModel>) -> Seq<AsPathPlanModel> {
    ss.map_values(
        |s: AsPathSpecModel|
            AsPathPlanModel {
                name: s.name,
                pattern: s.pattern,
                permit: or_else(s.permit, true),
            },
    )
}

/// The values of communities, or the first error.
pub open spec fn communities_of(cs: Seq<Seq<char>>) -> Result<Seq<u32>, Seq<char>>
    decreases cs.len(),
{
    if cs.len() == 0 {
        Ok(Seq::empty())
    } else {
        match communities_of(cs.drop_last()) {
            Err(e) => Err(e),
            Ok(before) => match community_of(cs.last()) {
                Ok(c) => Ok(before.push(c)),
                Err(e) => Err(e),
            },
        }
    }
}

/// The list of a community table.
pub open spec fn community_plan(s: CommunitySpecModel) -> Result<CommunityPlanModel, Seq<char>> {
    match communities_of(s.communities) {
        Ok(communities) => Ok(
            CommunityPlanModel { name: s.name, communities, permit: or_else(s.permit, true) },
        ),
        Err(e) => Err("community-list '"@ + s.name + "': "@ + e),
    }
}

/// The lists of the community tables, or the first error.
pub open spec fn community_plans(ss: Seq<CommunitySpecModel>) -> Result<
    Seq<CommunityPlanModel>,
    Seq<char>,
>
    decreases ss.len(),
{
    if ss.len() == 0 {
        Ok(Seq::empty())
    } else {
        match community_plans(ss.drop_last()) {
            Err(e) => Err(e),
            Ok(before) => match community_plan(ss.last()) {
                Ok(p) => Ok(before.push(p)),
                Err(e) => Err(e),
            },
        }
    }
}

/// The names of the lists that route-maps can refer to.
pub struct KnownModel {
    pub prefix: Seq<Seq<char>>,
    pub as_path: Seq<Seq<char>>,
    pub community: Seq<Seq<char>>,
}

/// The conditions of an entry, or the first unknown name.
pub open spec fn matches_of(s: RouteSpecModel, k: KnownModel) -> Result<
    Seq<MatchModel>,
    Seq<char>,
> {
    let unknown = |kind: Seq<char>, name: Seq<char>|
        "route-map '"@ + s.name + "': unknown "@ + kind + " '"@ + name + "'"@;
    if s.match_prefix is Some && !k.prefix.contains(s.match_prefix->0) {
        Err(unknown("prefix-list"@, s.match_prefix->0))
    } else if s.match_as_path is Some && !k.as_path.contains(s.match_as_path->0) {
        Err(unknown("as-path-list"@, s.match_as_path->0))
    } else if s.match_community is Some && !k.community.contains(s.match_community->0) {
        Err(unknown("community-list"@, s.match_community->0))
    } else {
        Ok(
            (match s.match_prefix {
                Some(n) => seq![MatchModel::Prefix(n)],
                None => Seq::empty(),
            }) + (match s.match_as_path {
                Some(n) => seq![MatchModel::AsPath(n)],
                None => Seq::empty(),
            }) + (match s.match_community {
                Some(n) => seq![MatchModel::Community(n)],
                None => Seq::empty(),
            }),
        )
    }
}

/// The prepend actions of a list of words, or the first error.
pub open spec fn prepends(name: Seq<char>, ws: Seq<Seq<char>>) -> Result<Seq<SetModel>, Seq<char>>
    decreases ws.len(),
{
    if ws.len() == 0 {
        Ok(Seq::empty())
    } else {
        match prepends(name, ws.drop_last()) {
            Err(e) => Err(e),
            Ok(before) => match u32_of(ws.last()) {
                Some(asn) => Ok(before.push(SetModel::PrependAs(asn))),
                None => Err("route-map '"@ + name + "': bad prepend AS '"@ + ws.last() + "'"@),
            },
        }
    }
}

/// The community actions of a list of words, or the first error.
pub open spec fn additions(name: Seq<char>, ws: Seq<Seq<char>>) -> Result<Seq<SetModel>, Seq<char>>
    decreases ws.len(),
{
    if ws.len() == 0 {
        Ok(Seq::empty())
    } else {
        match additions(name, ws.drop_last()) {
            Err(e) => Err(e),
            Ok(before) => match community_of(ws.last()) {
                Ok(c) => Ok(before.push(SetModel::AddCommunity(c))),
                Err(e) => Err("route-map '"@ + name + "': "@ + e),
            },
        }
    }
}

/// The words of an optional list.
pub open spec fn words_in(o: Option<Seq<char>>) -> Seq<Seq<char>> {
    match o {
        Some(t) => words_of(t),
        None => Seq::empty(),
    }
}

/// The actions on numbers.
pub open spec fn number_sets(s: RouteSpecModel) -> Seq<SetModel> {
    (match s.set_local_pref {
        Some(v) => seq![SetModel::LocalPref(v)],
        None => Seq::empty(),
    }) + (match s.set_med {
        Some(v) => seq![SetModel::Med(v)],
        None => Seq::empty(),
    }) + (match s.set_metric {
        Some(v) => seq![SetModel::Metric(v)],
        None => Seq::empty(),
    })
}

/// The actions of an entry, or the first error.
pub open spec fn sets_of(s: RouteSpecModel) -> Result<Seq<SetModel>, Seq<char>> {
    match s.set_next_hop {
        Some(NextHopModel { text, fault: Some(e) }) => Err(
            "route-map '"@ + s.name + "': bad set_next_hop '"@ + text + "': "@ + e,
        ),
        _ => match prepends(s.name, words_in(s.prepend)) {
            Err(e) => Err(e),
            Ok(p) => match additions(s.name, words_in(s.add_community)) {
                Err(e) => Err(e),
                Ok(a) => Ok(
                    number_sets(s) + (match s.set_next_hop {
                        Some(h) => seq![SetModel::NextHop(h.text)],
                        None => Seq::empty(),
                    }) + p + a,
                ),
            },
        },
    }
}

/// The entry of a route-map table, or the first error.
pub open spec fn entry_plan(s: RouteSpecModel, k: KnownModel) -> Result<EntryModel, Seq<char>> {
    match matches_of(s, k) {
        Err(e) => Err(e),
        Ok(matches) => match sets_of(s) {
            Err(e) => Err(e),
            Ok(sets) => Ok(EntryModel { name: s.name, matches, sets, verdict: s.permit }),
        },
    }
}

/// Where an entry belongs: behind all that are not larger, from `i` on.
pub open spec fn place(order: Seq<int>, keys: Seq<u32>, i: int, key: u32) -> int
    decreases order.len() - i,
{
    if i < 0 || i >= order.len() || keys[order[i]] > key {
        i
    } else {
        place(order, keys, i + 1, key)
    }
}

/// The order in which the first `n` tables apply.
pub open spec fn order_of(keys: Seq<u32>, n: int) -> Seq<int>
    decreases n,
{
    if n <= 0 || n > keys.len() {
        Seq::empty()
    } else {
        let before = order_of(keys, n - 1);
        before.insert(place(before, keys, 0, keys[n - 1]), n - 1)
    }
}

/// Whether one table applies before another: a smaller entry first, ties in
/// the order of the file.
pub open spec fn applies_before(keys: Seq<u32>, a: int, b: int) -> bool {
    keys[a] < keys[b] || (keys[a] == keys[b] && a < b)
}

proof fn place_splits(order: Seq<int>, keys: Seq<u32>, i: int, key: u32)
    requires
        0 <= i <= order.len(),
        forall|j: int| 0 <= j < i ==> keys[#[trigger] order[j]] <= key,
    ensures
        i <= place(order, keys, i, key) <= order.len(),
        forall|j: int|
            0 <= j < place(order, keys, i, key) ==> keys[#[trigger] order[j]] <= key,
        place(order, keys, i, key) < order.len() ==> keys[order[place(order, keys, i, key)]] > key,
    decreases order.len() - i,
{
    if i < order.len() && keys[order[i]] <= key {
        place_splits(order, keys, i + 1, key);
    }
}

/// Entries apply in ascending order, ties in the order of the file; every
/// table occurs exactly once.
pub proof fn entries_apply_in_order(keys: Seq<u32>, n: int)
    requires
        0 <= n <= keys.len(),
    ensures
        order_of(keys, n).len() == n,
        forall|i: int| 0 <= i < n ==> 0 <= #[trigger] order_of(keys, n)[i] < n,
        forall|i: int, j: int|
            0 <= i < j < n ==> applies_before(
                keys,
                #[trigger] order_of(keys, n)[i],
                #[trigger] order_of(keys, n)[j],
            ),
    decreases n,
{
    if n > 0 {
        entries_apply_in_order(keys, n - 1);
        let o = order_of(keys, n - 1);
        let d = order_of(keys, n);
        let key = keys[n - 1];
        let p = place(o, keys, 0, key);
        place_splits(o, keys, 0, key);
        assert forall|i: int, j: int| 0 <= i < j < n implies applies_before(
            keys,
            #[trigger] d[i],
            #[trigger] d[j],
        ) by {
            if j < p {
                assert(applies_before(keys, o[i], o[j]));
            } else if j == p {
                assert(keys[o[i]] <= key);
            } else {
                if p < j - 1 {
                    assert(applies_before(keys, o[p], o[j - 1]));
                }
                if i < p {
                    assert(applies_before(keys, o[i], o[j - 1]));
                } else if i > p {
                    assert(applies_before(keys, o[i - 1], o[j - 1]));
                }
            }
        }
    }
}

/// The keys of the tables.
pub open spec fn keys_of(ms: Seq<RouteSpecModel>) -> Seq<u32> {
    ms.map_values(|m: RouteSpecModel| m.entry)
}

/// The entries of the tables, taken in an order, or the first error.
pub open spec fn entry_plans(ms: Seq<RouteSpecModel>, order: Seq<int>, k: KnownModel) -> Result<
    Seq<EntryModel>,
    Seq<char>,
>
    decreases order.len(),
{
    if order.len() == 0 {
        Ok(Seq::empty())
    } else {
        match entry_plans(ms, order.drop_last(), k) {
            Err(e) => Err(e),
            Ok(before) => match entry_plan(ms[order.last()], k) {
                Ok(p) => Ok(before.push(p)),
                Err(e) => Err(e),
            },
        }
    }
}

/// What the tables can refer to.
pub open spec fn known_of(t: TablesModel) -> KnownModel {
    KnownModel {
        prefix: t.prefix_lists.map_values(|s: PrefixSpecModel| s.name),
        as_path: t.as_path_lists.map_values(|s: AsPathSpecModel| s.name),
        community: t.community_lists.map_values(|s: CommunitySpecModel| s.name),
    }
}

/// The plan of the policy tables, or the first error. An unknown name is an
/// error: nothing is silently permissive.
pub open spec fn policy_plan(t: TablesModel) -> Result<PlanModel, Seq<char>> {
    match prefix_plans(t.prefix_lists) {
        Err(e) => Err(e),
        Ok(prefix_lists) => match community_plans(t.community_lists) {
            Err(e) => Err(e),
            Ok(community_lists) => {
                let n = t.route_maps.len() as int;
                match entry_plans(
                    t.route_maps,
                    order_of(keys_of(t.route_maps), n),
                    known_of(t),
                ) {
                    Err(e) => Err(e),
                    Ok(entries) => Ok(
                        PlanModel {
                            prefix_lists,
                            as_path_lists: as_path_plans(t.as_path_lists),
                            community_lists,
                            entries,
                        },
                    ),
                }
            },
        },
    }
}

/// A result over text.
pub open spec fn built<T: View>(r: Result<T, String>) -> Result<T::V, Seq<char>> {
    match r {
        Ok(x) => Ok(x@),
        Err(m) => Err(m@),
    }
}

/// A list result over text.
pub open spec fn built_list<T: View>(r: Result<Vec<T>, String>) -> Result<Seq<T::V>, Seq<char>> {
    match r {
        Ok(x) => Ok(views(x@)),
        Err(m) => Err(m@),
    }
}

fn plan_prefix(s: &PrefixListSpec) -> (r: Result<PrefixListPlan, String>)
    ensures
        built(r) == prefix_plan(s@),
{
    match &s.parsed {
        Ok(len) => Ok(
            PrefixListPlan {
                name: own(s.name.as_str()),
                prefix: own(s.prefix.as_str()),
                ge: match s.ge {
                    Some(x) => x,
                    None => *len,
                },
                le: match s.le {
                    Some(x) => x,
                    None => 255,
                },
                permit: match s.permit {
                    Some(x) => x,
                    None => true,
                },
            },
        ),
        Err(e) => {
            let mut m = cat3("prefix-list '", s.name.as_str(), "': bad prefix '");
            m.append(s.prefix.as_str());
            m.append("': ");
            m.append(e.as_str());
            Err(m)
        },
    }
}

fn plan_prefixes(ss: &Vec<PrefixListSpec>) -> (r: Result<Vec<PrefixListPlan>, String>)
    ensures
        built_list(r) == prefix_plans(views(ss@)),
{
    let ghost sv = views(ss@);
    let mut out: Vec<PrefixListPlan> = no_items();
    let mut fault: Option<String> = None;
    let mut i: usize = 0;
    while i < ss.len()
        invariant
            i <= ss@.len(),
            sv == views(ss@),
            prefix_plans(sv.take(i as int)) == (match fault {
                Some(m) => Err(m@),
                None => Ok(views(out@)),
            }),
        decreases ss@.len() - i,
    {
        proof {
            take_step(sv, i as int);
        }
        if fault.is_none() {
            match plan_prefix(&ss[i]) {
                Ok(p) => {
                    push_view(&mut out, p);
                },
                Err(m) => {
                    fault = Some(m);
                },
            }
        }
        i += 1;
    }
    assert(sv.take(i as int) =~= sv);
    match fault {
        Some(m) => Err(m),
        None => Ok(out),
    }
}

fn plan_as_paths(ss: &Vec<AsPathListSpec>) -> (r: Vec<AsPathPlan>)
    ensures
        views(r@) == as_path_plans(views(ss@)),
{
    let ghost sv = views(ss@);
    let mut out: Vec<AsPathPlan> = no_items();
    let mut i: usize = 0;
    assert(as_path_plans(sv.take(0)) =~= Seq::empty());
    while i < ss.len()
        invariant
            i <= ss@.len(),
            sv == views(ss@),
            views(out@) == as_path_plans(sv.take(i as int)),
        decreases ss@.len() - i,
    {
        let p = AsPathPlan {
            name: own(ss[i].name.as_str()),
            pattern: own(ss[i].pattern.as_str()),
            permit: match ss[i].permit {
                Some(x) => x,
                None => true,
            },
        };
        push_view(&mut out, p);
        i += 1;
        assert(views(out@) =~= as_path_plans(sv.take(i as int)));
    }
    assert(sv.take(i as int) =~= sv);
    out
}

fn read_communities(cs: &Vec<String>) -> (r: Result<Vec<u32>, String>)
    ensures
        communities_of(views(cs@)) == (match r {
            Ok(v) => Ok(v@),
            Err(m) => Err(m@),
        }),
{
    let ghost cv = views(cs@);
    let mut out: Vec<u32> = Vec::new();
    let mut fault: Option<String> = None;
    let mut i: usize = 0;
    assert(out@ =~= Seq::empty());
    while i < cs.len()
        invariant
            i <= cs@.len(),
            cv == views(cs@),
            communities_of(cv.take(i as int)) == (match fault {
                Some(m) => Err(m@),
                None => Ok(out@),
            }),
        decreases cs@.len() - i,
    {
        proof {
            take_step(cv, i as int);
        }
        if fault.is_none() {
            match parse_community(cs[i].as_str()) {
                Ok(c) => {
                    out.push(c);
                },
                Err(m) => {
                    fault = Some(m);
                },
            }
        }
        i += 1;
    }
    assert(cv.take(i as int) =~= cv);
    match fault {
        Some(m) => Err(m),
        None => Ok(out),
    }
}

fn plan_communities(ss: &Vec<CommunityListSpec>) -> (r: Result<Vec<CommunityPlan>, String>)
    ensures
        built_list(r) == community_plans(views(ss@)),
{
    let ghost sv = views(ss@);
    let mut out: Vec<CommunityPlan> = no_items();
    let mut fault: Option<String> = None;
    let mut i: usize = 0;
    while i < ss.len()
        invariant
            i <= ss@.len(),
            sv == views(ss@),
            community_plans(sv.take(i as int)) == (match fault {
                Some(m) => Err(m@),
                None => Ok(views(out@)),
            }),
        decreases ss@.len() - i,
    {
        proof {
            take_step(sv, i as int);
        }
        if fault.is_none() {
            match read_communities(&ss[i].communities) {
                Ok(communities) => {
                    let p = CommunityPlan {
                        name: own(ss[i].name.as_str()),
                        communities,
                        permit: match ss[i].permit {
                            Some(x) => x,
                            None => true,
                        },
                    };
                    push_view(&mut out, p);
                },
                Err(e) => {
                    let mut m = cat3("community-list '", ss[i].name.as_str(), "': ");
                    m.append(e.as_str());
                    fault = Some(m);
                },
            }
        }
        i += 1;
    }
    assert(sv.take(i as int) =~= sv);
    match fault {
        Some(m) => Err(m),
        None => Ok(out),
    }
}

/// The names that route-maps can refer to.
struct Known {
    prefix: Vec<String>,
    as_path: Vec<String>,
    community: Vec<String>,
}

impl Known {
    spec fn model(&self) -> KnownModel {
        KnownModel {
            prefix: views(self.prefix@),
            as_path: views(self.as_path@),
            community: views(self.community@),
        }
    }
}

fn collect_known(t: &PolicyTables) -> (k: Known)
    ensures
        k.model() == known_of(t@),
{
    let ghost want = known_of(t@);
    let mut prefix: Vec<String> = no_items();
    let mut i: usize = 0;
    while i < t.prefix_lists.len()
        invariant
            i <= t.prefix_lists@.len(),
            want == known_of(t@),
            want.prefix.len() == t.prefix_lists@.len(),
            views(prefix@) == want.prefix.take(i as int),
        decreases t.prefix_lists@.len() - i,
    {
        push_view(&mut prefix, own(t.prefix_lists[i].name.as_str()));
        i += 1;
        assert(views(prefix@) =~= want.prefix.take(i as int));
    }
    let mut as_path: Vec<String> = no_items();
    let mut j: usize = 0;
    while j < t.as_path_lists.len()
        invariant
            j <= t.as_path_lists@.len(),
            want == known_of(t@),
            want.as_path.len() == t.as_path_lists@.len(),
            views(as_path@) == want.as_path.take(j as int),
        decreases t.as_path_lists@.len() - j,
    {
        push_view(&mut as_path, own(t.as_path_lists[j].name.as_str()));
        j += 1;
        assert(views(as_path@) =~= want.as_path.take(j as int));
    }
    let mut community: Vec<String> = no_items();
    let mut n: usize = 0;
    while n < t.community_lists.len()
        invariant
            n <= t.community_lists@.len(),
            want == known_of(t@),
            want.community.len() == t.community_lists@.len(),
            views(community@) == want.community.take(n as int),
        decreases t.community_lists@.len() - n,
    {
        push_view(&mut community, own(t.community_lists[n].name.as_str()));
        n += 1;
        assert(views(community@) =~= want.community.take(n as int));
    }
    proof {
        assert(want.prefix.take(i as int) =~= want.prefix);
        assert(want.as_path.take(j as int) =~= want.as_path);
        assert(want.community.take(n as int) =~= want.community);
    }
    Known { prefix, as_path, community }
}

fn unknown_list(name: &str, kind: &str, list: &str) -> (m: String)
    ensures
        m@ == "route-map '"@ + name@ + "': unknown "@ + kind@ + " '"@ + list@ + "'"@,
{
    let mut m = cat3("route-map '", name, "': unknown ");
    m.append(kind);
    m.append(" '");
    m.append(list);
    m.append("'");
    m
}

fn plan_matches(s: &RouteMapSpec, k: &Known) -> (r: Result<Vec<Match>, String>)
    ensures
        built_list(r) == matches_of(s@, k.model()),
{
    let mut out: Vec<Match> = no_items();
    match &s.match_prefix {
        Some(n) => {
            if !lists_text(&k.prefix, n.as_str()) {
                return Err(unknown_list(s.name.as_str(), "prefix-list", n.as_str()));
            }
            push_view(&mut out, Match::Prefix(own(n.as_str())));
        },
        None => {},
    }
    let ghost a = views(out@);
    assert(a =~= (match s@.match_prefix {
        Some(n) => seq![MatchModel::Prefix(n)],
        None => Seq::empty(),
    }));
    match &s.match_as_path {
        Some(n) => {
            if !lists_text(&k.as_path, n.as_str()) {
                return Err(unknown_list(s.name.as_str(), "as-path-list", n.as_str()));
            }
            push_view(&mut out, Match::AsPath(own(n.as_str())));
        },
        None => {},
    }
    let ghost b = views(out@);
    assert(b =~= a + (match s@.match_as_path {
        Some(n) => seq![MatchModel::AsPath(n)],
        None => Seq::empty(),
    }));
    match &s.match_community {
        Some(n) => {
            if !lists_text(&k.community, n.as_str()) {
                return Err(unknown_list(s.name.as_str(), "community-list", n.as_str()));
            }
            push_view(&mut out, Match::Community(own(n.as_str())));
        },
        None => {},
    }
    assert(views(out@) =~= b + (match s@.match_community {
        Some(n) => seq![MatchModel::Community(n)],
        None => Seq::empty(),
    }));
    Ok(out)
}

fn list_words(o: &Option<String>) -> (r: Vec<String>)
    ensures
        views(r@) == words_in(opt_view(*o)),
{
    match o {
        Some(t) => words(t.as_str()),
        None => no_items(),
    }
}

fn plan_prepends(out: &mut Vec<SetAction>, name: &str, ws: &Vec<String>) -> (fault: Option<String>)
    ensures
        match prepends(name@, views(ws@)) {
            Ok(p) => fault is None && views(final(out)@) == views(old(out)@) + p,
            Err(e) => opt_view(fault) == Some(e),
        },
{
    let ghost wv = views(ws@);
    let ghost before = views(out@);
    let mut i: usize = 0;
    assert(before + Seq::<SetModel>::empty() =~= before);
    let mut fault: Option<String> = None;
    while i < ws.len()
        invariant
            i <= ws@.len(),
            wv == views(ws@),
            match prepends(name@, wv.take(i as int)) {
                Ok(p) => fault is None && views(out@) == before + p,
                Err(e) => opt_view(fault) == Some(e),
            },
        decreases ws@.len() - i,
    {
        proof {
            take_step(wv, i as int);
        }
        let ghost mid = views(out@);
        if fault.is_none() {
            match read_u32(ws[i].as_str()) {
                Some(asn) => {
                    push_view(out, SetAction::PrependAs(asn));
                    proof {
                        let p = prepends(name@, wv.take(i as int))->Ok_0;
                        assert(views(out@) =~= before + p.push(SetModel::PrependAs(asn)));
                    }
                },
                None => {
                    let mut m = cat3("route-map '", name, "': bad prepend AS '");
                    m.append(ws[i].as_str());
                    m.append("'");
                    fault = Some(m);
                },
            }
        }
        i += 1;
    }
    assert(wv.take(i as int) =~= wv);
    fault
}

fn plan_additions(out: &mut Vec<SetAction>, name: &str, ws: &Vec<String>) -> (fault: Option<
    String,
>)
    ensures
        match additions(name@, views(ws@)) {
            Ok(p) => fault is None && views(final(out)@) == views(old(out)@) + p,
            Err(e) => opt_view(fault) == Some(e),
        },
{
    let ghost wv = views(ws@);
    let ghost before = views(out@);
    let mut i: usize = 0;
    assert(before + Seq::<SetModel>::empty() =~= before);
    let mut fault: Option<String> = None;
    while i < ws.len()
        invariant
            i <= ws@.len(),
            wv == views(ws@),
            match additions(name@, wv.take(i as int)) {
                Ok(p) => fault is None && views(out@) == before + p,
                Err(e) => opt_view(fault) == Some(e),
            },
        decreases ws@.len() - i,
    {
        proof {
            take_step(wv, i as int);
        }
        if fault.is_none() {
            match parse_community(ws[i].as_str()) {
                Ok(c) => {
                    push_view(out, SetAction::AddCommunity(c));
                    proof {
                        let p = additions(name@, wv.take(i as int))->Ok_0;
                        assert(views(out@) =~= before + p.push(SetModel::AddCommunity(c)));
                    }
                },
                Err(e) => {
                    let mut m = cat3("route-map '", name, "': ");
                    m.append(e.as_str());
                    fault = Some(m);
                },
            }
        }
        i += 1;
    }
    assert(wv.take(i as int) =~= wv);
    fault
}

fn plan_numbers(s: &RouteMapSpec) -> (out: Vec<SetAction>)
    ensures
        views(out@) == number_sets(s@),
{
    let mut out: Vec<SetAction> = no_items();
    match s.set_local_pref {
        Some(v) => {
            push_view(&mut out, SetAction::LocalPref(v));
        },
        None => {},
    }
    let ghost a = views(out@);
    assert(a =~= (match s@.set_local_pref {
        Some(v) => seq![SetModel::LocalPref(v)],
        None => Seq::empty(),
    }));
    match s.set_med {
        Some(v) => {
            push_view(&mut out, SetAction::Med(v));
        },
        None => {},
    }
    let ghost b = views(out@);
    assert(b =~= a + (match s@.set_med {
        Some(v) => seq![SetModel::Med(v)],
        None => Seq::empty(),
    }));
    match s.set_metric {
        Some(v) => {
            push_view(&mut out, SetAction::Metric(v));
        },
        None => {},
    }
    assert(views(out@) =~= b + (match s@.set_metric {
        Some(v) => seq![SetModel::Metric(v)],
        None => Seq::empty(),
    }));
    out
}

fn plan_sets(s: &RouteMapSpec) -> (r: Result<Vec<SetAction>, String>)
    ensures
        built_list(r) == sets_of(s@),
{
    let mut out = plan_numbers(s);
    let ghost a = views(out@);
    match &s.set_next_hop {
        Some(h) => {
            match &h.fault {
                Some(e) => {
                    let mut m = cat3("route-map '", s.name.as_str(), "': bad set_next_hop '");
                    m.append(h.text.as_str());
                    m.append("': ");
                    m.append(e.as_str());
                    return Err(m);
                },
                None => {},
            }
            push_view(&mut out, SetAction::NextHop(own(h.text.as_str())));
        },
        None => {},
    }
    assert(views(out@) =~= a + (match s@.set_next_hop {
        Some(h) => seq![SetModel::NextHop(h.text)],
        None => Seq::empty(),
    }));
    let ws = list_words(&s.prepend);
    match plan_prepends(&mut out, s.name.as_str(), &ws) {
        Some(m) => {
            return Err(m);
        },
        None => {},
    }
    let cs = list_words(&s.add_community);
    match plan_additions(&mut out, s.name.as_str(), &cs) {
        Some(m) => Err(m),
        None => Ok(out),
    }
}

fn plan_entry(s: &RouteMapSpec, k: &Known) -> (r: Result<EntryPlan, String>)
    ensures
        built(r) == entry_plan(s@, k.model()),
{
    match plan_matches(s, k) {
        Err(m) => Err(m),
        Ok(matches) => match plan_sets(s) {
            Err(m) => Err(m),
            Ok(sets) => Ok(
                EntryPlan { name: own(s.name.as_str()), matches, sets, verdict: s.permit },
            ),
        },
    }
}

/// The positions as integers.
spec fn ints(v: Seq<usize>) -> Seq<int> {
    v.map_values(|i: usize| i as int)
}

fn sort_entries(ms: &Vec<RouteMapSpec>) -> (order: Vec<usize>)
    ensures
        ints(order@) == order_of(keys_of(views(ms@)), ms@.len() as int),
{
    let ghost keys = keys_of(views(ms@));
    let mut order: Vec<usize> = Vec::new();
    let mut n: usize = 0;
    assert(ints(order@) =~= Seq::empty());
    while n < ms.len()
        invariant
            n <= ms@.len(),
            keys == keys_of(views(ms@)),
            keys.len() == ms@.len(),
            ints(order@) == order_of(keys, n as int),
        decreases ms@.len() - n,
    {
        proof {
            entries_apply_in_order(keys, n as int);
            assert(keys[n as int] == ms@[n as int].entry);
        }
        let ghost o = ints(order@);
        proof {
            assert(o.len() == order@.len());
            assert forall|j: int| 0 <= j < order@.len() implies (#[trigger] order@[j])
                < ms@.len() by {
                assert(o[j] == order@[j]);
            }
        }
        let key: u32 = ms[n].entry;
        let mut i: usize = 0;
        while i < order.len() && ms[order[i]].entry <= key
            invariant
                i <= order@.len(),
                n < ms@.len(),
                keys == keys_of(views(ms@)),
                keys.len() == ms@.len(),
                o == ints(order@),
                o.len() == order@.len(),
                forall|j: int| 0 <= j < o.len() ==> 0 <= #[trigger] o[j] < n,
                forall|j: int| 0 <= j < order@.len() ==> (#[trigger] order@[j]) < ms@.len(),
                place(o, keys, 0, key) == place(o, keys, i as int, key),
            decreases order@.len() - i,
        {
            assert(o[i as int] == order@[i as int]);
            assert(keys[o[i as int]] == ms@[order@[i as int] as int].entry);
            i += 1;
        }
        proof {
            if i < order@.len() {
                assert(o[i as int] == order@[i as int]);
                assert(keys[o[i as int]] == ms@[order@[i as int] as int].entry);
            }
        }
        order.insert(i, n);
        assert(ints(order@) =~= o.insert(i as int, n as int));
        n += 1;
    }
    order
}

/// Compiles the policy tables into a plan, or the first error.
pub fn build_policy_set(t: &PolicyTables) -> (r: Result<PolicyPlan, String>)
    ensures
        built(r) == policy_plan(t@),
{
    let prefix_lists = match plan_prefixes(&t.prefix_lists) {
        Ok(x) => x,
        Err(m) => {
            return Err(m);
        },
    };
    let as_path_lists = plan_as_paths(&t.as_path_lists);
    let community_lists = match plan_communities(&t.community_lists) {
        Ok(x) => x,
        Err(m) => {
            return Err(m);
        },
    };
    let k = collect_known(t);
    let order = sort_entries(&t.route_maps);
    let ghost ms = views(t.route_maps@);
    let ghost o = ints(order@);
    proof {
        entries_apply_in_order(keys_of(ms), ms.len() as int);
        assert(o.len() == order@.len());
        assert forall|j: int| 0 <= j < order@.len() implies (#[trigger] order@[j])
            < t.route_maps@.len() by {
            assert(o[j] == order@[j]);
        }
    }
    let mut entries: Vec<EntryPlan> = no_items();
    let mut i: usize = 0;
    while i < order.len()
        invariant
            i <= order@.len(),
            o == ints(order@),
            o == order_of(keys_of(ms), ms.len() as int),
            o.len() == order@.len(),
            ms == views(t.route_maps@),
            ms == t@.route_maps,
            k.model() == known_of(t@),
            prefix_plans(t@.prefix_lists) is Ok,
            community_plans(t@.community_lists) is Ok,
            forall|j: int| 0 <= j < order@.len() ==> (#[trigger] order@[j]) < t.route_maps@.len(),
            entry_plans(ms, o.take(i as int), k.model()) == Ok::<Seq<EntryModel>, Seq<char>>(
                views(entries@),
            ),
        decreases order@.len() - i,
    {
        proof {
            take_step(o, i as int);
            assert(o[i as int] == order@[i as int]);
        }
        match plan_entry(&t.route_maps[order[i]], &k) {
            Ok(e) => {
                push_view(&mut entries, e);
            },
            Err(m) => {
                proof {
                    first_fault_stays(ms, o, k.model(), i + 1);
                }
                return Err(m);
            },
        }
        i += 1;
    }
    assert(o.take(i as int) =~= o);
    Ok(PolicyPlan { prefix_lists, as_path_lists, community_lists, entries })
}

proof fn first_fault_stays(ms: Seq<RouteSpecModel>, o: Seq<int>, k: KnownModel, i: int)
    requires
        0 <= i <= o.len(),
        entry_plans(ms, o.take(i), k) is Err,
    ensures
        entry_plans(ms, o, k) == entry_plans(ms, o.take(i), k),
    decreases o.len(),
{
    if i < o.len() {
        assert(o.drop_last().take(i) =~= o.take(i));
        first_fault_stays(ms, o.drop_last(), k, i);
    } else {
        assert(o.take(i) =~= o);
    }
}

proof fn entries_follow(ms: Seq<RouteSpecModel>, o: Seq<int>, k: KnownModel, i: int)
    requires
        entry_plans(ms, o, k) is Ok,
        0 <= i < o.len(),
    ensures
        entry_plans(ms, o, k)->Ok_0.len() == o.len(),
        entry_plan(ms[o[i]], k) is Ok,
        entry_plans(ms, o, k)->Ok_0[i] == entry_plan(ms[o[i]], k)->Ok_0,
    decreases o.len(),
{
    if o.len() > 1 {
        let j = if i < o.len() - 1 {
            i
        } else {
            0
        };
        entries_follow(ms, o.drop_last(), k, j);
        assert(o.drop_last()[j] == o[j]);
    } else {
        assert(entry_plans(ms, o.drop_last(), k) == Ok::<Seq<EntryModel>, Seq<char>>(Seq::empty()));
    }
    assert(i == o.len() - 1 ==> o.last() == o[i]);
}

/// Whether a condition refers to a list there is.
pub open spec fn refers(m: MatchModel, k: KnownModel) -> bool {
    match m {
        MatchModel::Prefix(n) => k.prefix.contains(n),
        MatchModel::AsPath(n) => k.as_path.contains(n),
        MatchModel::Community(n) => k.community.contains(n),
    }
}

/// A plan has an entry for every route-map table, in the order in which they
/// apply, and every condition of an entry refers to a list there is.
pub proof fn plans_resolve(t: TablesModel, i: int)
    requires
        policy_plan(t) is Ok,
        0 <= i < t.route_maps.len(),
    ensures
        policy_plan(t)->Ok_0.entries.len() == t.route_maps.len(),
        Ok::<EntryModel, Seq<char>>(policy_plan(t)->Ok_0.entries[i]) == entry_plan(
            t.route_maps[order_of(keys_of(t.route_maps), t.route_maps.len() as int)[i]],
            known_of(t),
        ),
        forall|j: int|
            0 <= j < policy_plan(t)->Ok_0.entries[i].matches.len() ==> refers(
                #[trigger] policy_plan(t)->Ok_0.entries[i].matches[j],
                known_of(t),
            ),
{
    let n = t.route_maps.len() as int;
    let o = order_of(keys_of(t.route_maps), n);
    entries_apply_in_order(keys_of(t.route_maps), n);
    entries_follow(t.route_maps, o, known_of(t), i);
}

} // verus!
