//! The display model of a snapshot: targets in display order, the source
//! rows, the routing grid of targets by sources, the four Link output rows,
//! where each application is routed, the selected default devices and the
//! hotkey rows.
use vstd::prelude::*;
use crate::model::{
    AppSnapshot, LinkChannel, MixerChannel, MixerPhysicalDeviceChoice,
    MixerPhysicalDeviceDescriptor, MixerSnapshot, MixerSourceKind, MixerTarget, MuteState,
};
use crate::desktop::{channel_detail, channel_detail_spec};
use crate::profile::{device_matches, physical_device_matches};
use crate::reconcile::{first_where, lemma_first_where_stable, route_exists};
use crate::pipeweaver::link_output_name;
use crate::text::{chars_of, decimal_string, is_ascii_hex, push_str, str_eq};

verus! {

/// Where a target is shown: Headphones, Audience Mix, Voice Chat Mic and VOD
/// Track first, in that order, then every other target.
pub open spec fn target_rank(name: Seq<char>) -> nat {
    if name == "Headphones"@ {
        0
    } else if name == "Audience Mix"@ {
        1
    } else if name == "Voice Chat Mic"@ {
        2
    } else if name == "VOD Track"@ {
        3
    } else {
        4
    }
}

fn target_rank_of(name: &str) -> (r: u8)
    ensures
        r == target_rank(name@),
{
    if str_eq(name, "Headphones") {
        0
    } else if str_eq(name, "Audience Mix") {
        1
    } else if str_eq(name, "Voice Chat Mic") {
        2
    } else if str_eq(name, "VOD Track") {
        3
    } else {
        4
    }
}

/// The positions among the first `n` targets that have rank `r`, in order.
pub open spec fn rank_indices(ts: Seq<MixerTarget>, r: nat, n: nat) -> Seq<int>
    decreases n,
{
    if n == 0 {
        Seq::empty()
    } else {
        rank_indices(ts, r, (n - 1) as nat) + if target_rank(ts[n - 1].name@) == r {
            seq![n - 1]
        } else {
            Seq::<int>::empty()
        }
    }
}

/// The targets of ranks below `r`, rank by rank, each rank in snapshot order.
pub open spec fn order_upto(ts: Seq<MixerTarget>, r: nat) -> Seq<int>
    decreases r,
{
    if r == 0 {
        Seq::empty()
    } else {
        order_upto(ts, (r - 1) as nat) + rank_indices(ts, (r - 1) as nat, ts.len())
    }
}

/// The display order of the targets: a stable sort by rank.
pub open spec fn target_order(ts: Seq<MixerTarget>) -> Seq<int> {
    order_upto(ts, 5)
}

pub open spec fn as_ints(v: Seq<usize>) -> Seq<int> {
    v.map_values(|x: usize| x as int)
}

proof fn lemma_rank_indices_bounded(ts: Seq<MixerTarget>, r: nat, n: nat)
    requires
        n <= ts.len(),
    ensures
        forall|k: int| 0 <= k < rank_indices(ts, r, n).len() ==> 0 <= #[trigger] rank_indices(ts, r, n)[k] < n,
        rank_indices(ts, r, n).len() <= n,
    decreases n,
{
    if n > 0 {
        lemma_rank_indices_bounded(ts, r, (n - 1) as nat);
    }
}

proof fn lemma_order_upto_bounded(ts: Seq<MixerTarget>, r: nat)
    ensures
        forall|k: int| 0 <= k < order_upto(ts, r).len() ==> 0 <= #[trigger] order_upto(ts, r)[k] < ts.len(),
        order_upto(ts, r).len() <= r * ts.len(),
    decreases r,
{
    if r > 0 {
        lemma_order_upto_bounded(ts, (r - 1) as nat);
        lemma_rank_indices_bounded(ts, (r - 1) as nat, ts.len());
        let a = order_upto(ts, (r - 1) as nat);
        let b = rank_indices(ts, (r - 1) as nat, ts.len());
        assert forall|k: int| 0 <= k < (a + b).len() implies 0 <= #[trigger] (a + b)[k] < ts.len() by {
            if k >= a.len() {
                assert((a + b)[k] == b[k - a.len()]);
            }
        }
        assert(r * ts.len() == (r - 1) * ts.len() + ts.len()) by (nonlinear_arith);
    }
}

/// The targets' positions in display order.
pub fn display_target_order(targets: &Vec<MixerTarget>) -> (r: Vec<usize>)
    ensures
        as_ints(r@) == target_order(targets@),
        forall|k: int| 0 <= k < r@.len() ==> (#[trigger] r@[k]) < targets@.len(),
{
    let mut out: Vec<usize> = Vec::new();
    let mut rank: u8 = 0;
    assert(as_ints(out@) =~= order_upto(targets@, 0));
    while rank < 5
        invariant
            rank <= 5,
            as_ints(out@) == order_upto(targets@, rank as nat),
        decreases 5 - rank,
    {
        let mut k: usize = 0;
        let ghost before = as_ints(out@);
        assert(as_ints(out@) =~= before + rank_indices(targets@, rank as nat, 0));
        while k < targets.len()
            invariant
                k <= targets@.len(),
                rank < 5,
                before == order_upto(targets@, rank as nat),
                as_ints(out@) == before + rank_indices(targets@, rank as nat, k as nat),
            decreases targets@.len() - k,
        {
            let ghost prev = out@;
            let ghost step = if target_rank(targets@[k as int].name@) == rank as nat {
                seq![k as int]
            } else {
                Seq::<int>::empty()
            };
            assert(rank_indices(targets@, rank as nat, (k + 1) as nat) == rank_indices(targets@, rank as nat, k as nat) + step);
            if target_rank_of(targets[k].name.as_str()) == rank {
                out.push(k);
                assert(as_ints(out@) =~= as_ints(prev).push(k as int));
            }
            assert(as_ints(out@) =~= before + rank_indices(targets@, rank as nat, (k + 1) as nat));
            k = k + 1;
        }
        rank = rank + 1;
    }
    proof {
        lemma_order_upto_bounded(targets@, 5);
        assert forall|k: int| 0 <= k < out@.len() implies (#[trigger] out@[k]) < targets@.len() by {
            assert(as_ints(out@)[k] == out@[k] as int);
        }
    }
    out
}

/// One cell of the routing grid: a source routed, or not, to a target.
#[derive(Debug, Clone, PartialEq, Eq)]
pub struct RouteCell {
    pub source_id: String,
    pub target_id: String,
    pub row: usize,
    pub column: usize,
    pub enabled: bool,
}

/// A routing cell as plain values.
pub open spec fn cell_view(c: RouteCell) -> (Seq<char>, Seq<char>, int, int, bool) {
    (c.source_id@, c.target_id@, c.row as int, c.column as int, c.enabled)
}

/// The cell of display row `row` (target `t`) and source column `col`.
pub open spec fn grid_cell(m: MixerSnapshot, t: int, row: int, col: int) -> (Seq<char>, Seq<char>, int, int, bool) {
    let sid = m.channels@[col].id@;
    let tid = m.targets@[t].id@;
    (sid, tid, row, col, route_exists(m, sid, tid))
}

/// The grid row by row, each row source by source, for the first `n` rows
/// of the display order `order`.
pub open spec fn grid_rows(m: MixerSnapshot, order: Seq<int>, n: nat) -> Seq<(Seq<char>, Seq<char>, int, int, bool)>
    decreases n,
{
    if n == 0 {
        Seq::empty()
    } else {
        grid_rows(m, order, (n - 1) as nat) + Seq::new(
            m.channels@.len(),
            |col: int| grid_cell(m, order[n - 1], n - 1, col),
        )
    }
}

proof fn lemma_grid_len(m: MixerSnapshot, order: Seq<int>, n: nat)
    ensures
        grid_rows(m, order, n).len() == n * m.channels@.len(),
    decreases n,
{
    if n > 0 {
        lemma_grid_len(m, order, (n - 1) as nat);
        let c = m.channels@.len();
        let row = Seq::new(c, |col: int| grid_cell(m, order[n - 1], n - 1, col));
        assert(row.len() == c);
        assert(grid_rows(m, order, n) == grid_rows(m, order, (n - 1) as nat) + row);
        let k = (n - 1) as nat;
        assert(n * c == k * c + c) by (nonlinear_arith)
            requires
                k == n - 1,
        ;
    } else {
        let c = m.channels@.len();
        assert(n * c == 0) by (nonlinear_arith)
            requires
                n == 0,
        ;
    }
}

fn copy_str(s: &String) -> (r: String)
    ensures
        r@ == s@,
{
    String::from_str(s.as_str())
}

fn route_is_on(m: &MixerSnapshot, source_id: &str, target_id: &str) -> (r: bool)
    ensures
        r == route_exists(*m, source_id@, target_id@),
{
    let mut k: usize = 0;
    while k < m.routes.len()
        invariant
            k <= m.routes@.len(),
            forall|j: int| 0 <= j < k ==> !((#[trigger] m.routes@[j]).source_id@ == source_id@
                && m.routes@[j].target_id@ == target_id@),
        decreases m.routes@.len() - k,
    {
        if str_eq(m.routes[k].source_id.as_str(), source_id) && str_eq(m.routes[k].target_id.as_str(), target_id) {
            return true;
        }
        k = k + 1;
    }
    false
}

/// The routing grid: one row per target in display order, one cell per
/// source in snapshot order, each enabled exactly when that route exists.
pub fn route_grid_cells(m: &MixerSnapshot, order: &Vec<usize>) -> (r: Vec<RouteCell>)
    requires
        forall|k: int| 0 <= k < order@.len() ==> (#[trigger] order@[k]) < m.targets@.len(),
    ensures
        r@.map_values(|c: RouteCell| cell_view(c)) == grid_rows(*m, as_ints(order@), order@.len()),
        r@.len() == order@.len() * m.channels@.len(),
{
    let mut out: Vec<RouteCell> = Vec::new();
    let mut row: usize = 0;
    assert(out@.map_values(|c: RouteCell| cell_view(c)) =~= grid_rows(*m, as_ints(order@), 0));
    while row < order.len()
        invariant
            row <= order@.len(),
            forall|k: int| 0 <= k < order@.len() ==> (#[trigger] order@[k]) < m.targets@.len(),
            out@.map_values(|c: RouteCell| cell_view(c)) == grid_rows(*m, as_ints(order@), row as nat),
        decreases order@.len() - row,
    {
        let t = order[row];
        let ghost before = out@.map_values(|c: RouteCell| cell_view(c));
        let ghost cells = Seq::new(m.channels@.len(), |col: int| grid_cell(*m, as_ints(order@)[row as int], row as int, col));
        let mut col: usize = 0;
        assert(out@.map_values(|c: RouteCell| cell_view(c)) =~= before + cells.take(0));
        while col < m.channels.len()
            invariant
                col <= m.channels@.len(),
                row < order@.len(),
                t == order@[row as int],
                t < m.targets@.len(),
                cells == Seq::new(m.channels@.len(), |c: int| grid_cell(*m, as_ints(order@)[row as int], row as int, c)),
                out@.map_values(|c: RouteCell| cell_view(c)) == before + cells.take(col as int),
            decreases m.channels@.len() - col,
        {
            let source_id = copy_str(&m.channels[col].id);
            let target_id = copy_str(&m.targets[t].id);
            let enabled = route_is_on(m, source_id.as_str(), target_id.as_str());
            let cell = RouteCell { source_id, target_id, row, column: col, enabled };
            let ghost prev = out@;
            out.push(cell);
            assert(out@.map_values(|c: RouteCell| cell_view(c)) =~= prev.map_values(|c: RouteCell| cell_view(c)).push(cell_view(cell)));
            assert(cells.take(col + 1) =~= cells.take(col as int).push(cells[col as int]));
            assert(cells[col as int] == cell_view(cell));
            assert(out@.map_values(|c: RouteCell| cell_view(c)) =~= before + cells.take(col + 1));
            col = col + 1;
        }
        assert(cells.take(m.channels@.len() as int) =~= cells);
        assert(out@.map_values(|c: RouteCell| cell_view(c)) =~= grid_rows(*m, as_ints(order@), (row + 1) as nat));
        row = row + 1;
    }
    proof {
        lemma_grid_len(*m, as_ints(order@), order@.len());
        assert(out@.len() == out@.map_values(|c: RouteCell| cell_view(c)).len());
    }
    out
}

/// One of the four Link output rows.
#[derive(Debug, Clone, PartialEq, Eq)]
pub struct LinkOutputRow {
    pub slot: u8,
    pub node_id: Option<u32>,
    pub label: String,
    /// 0 for unassigned, else one more than the target's display position.
    pub target_index: usize,
    pub available: bool,
}

pub open spec fn slot_is(m: MixerSnapshot, slot: u8) -> spec_fn(int) -> bool {
    |k: int| m.link_outputs@[k].slot == slot
}

pub open spec fn shown_target_is(m: MixerSnapshot, order: Seq<int>, id: Seq<char>) -> spec_fn(int) -> bool {
    |p: int| m.targets@[order[p]].id@ == id
}

/// The target index shown for Link slot `slot`: one more than the display
/// position of the first target with the assigned id, or 0.
pub open spec fn link_target_index(m: MixerSnapshot, order: Seq<int>, slot: u8) -> int {
    match first_where(m.link_outputs@.len(), slot_is(m, slot)) {
        Some(k) => match m.link_outputs@[k].target_id {
            Some(id) => match first_where(order.len(), shown_target_is(m, order, id@)) {
                Some(p) => p + 1,
                None => 0,
            },
            None => 0,
        },
        None => 0,
    }
}

/// The row of Link slot `slot`: available exactly when the mixer has an
/// assignment for that slot, with the first such assignment's node.
pub open spec fn link_row_ok(m: MixerSnapshot, order: Seq<int>, slot: u8, row: LinkOutputRow) -> bool {
    &&& row.slot == slot
    &&& row.label@ == link_output_name(slot)
    &&& row.available == (first_where(m.link_outputs@.len(), slot_is(m, slot)) is Some)
    &&& row.node_id == (match first_where(m.link_outputs@.len(), slot_is(m, slot)) {
        Some(k) => Some(m.link_outputs@[k].node_id),
        None => None,
    })
    &&& row.target_index == link_target_index(m, order, slot)
}

fn first_slot(m: &MixerSnapshot, slot: u8) -> (r: Option<usize>)
    ensures
        match r {
            Some(k) => k < m.link_outputs@.len() && first_where(m.link_outputs@.len(), slot_is(*m, slot)) == Some(k as int),
            None => first_where(m.link_outputs@.len(), slot_is(*m, slot)) is None,
        },
{
    let ghost p = slot_is(*m, slot);
    let mut k: usize = 0;
    while k < m.link_outputs.len()
        invariant
            k <= m.link_outputs@.len(),
            p == slot_is(*m, slot),
            first_where(k as nat, p) is None,
        decreases m.link_outputs@.len() - k,
    {
        if m.link_outputs[k].slot == slot {
            proof {
                assert(p(k as int));
                lemma_first_where_stable((k + 1) as nat, m.link_outputs@.len(), p);
            }
            return Some(k);
        }
        k = k + 1;
    }
    None
}

fn shown_position(m: &MixerSnapshot, order: &Vec<usize>, id: &str) -> (r: Option<usize>)
    requires
        forall|k: int| 0 <= k < order@.len() ==> (#[trigger] order@[k]) < m.targets@.len(),
    ensures
        match r {
            Some(p) => p < order@.len() && first_where(order@.len(), shown_target_is(*m, as_ints(order@), id@)) == Some(p as int),
            None => first_where(order@.len(), shown_target_is(*m, as_ints(order@), id@)) is None,
        },
{
    let ghost p = shown_target_is(*m, as_ints(order@), id@);
    let mut k: usize = 0;
    while k < order.len()
        invariant
            k <= order@.len(),
            forall|j: int| 0 <= j < order@.len() ==> (#[trigger] order@[j]) < m.targets@.len(),
            p == shown_target_is(*m, as_ints(order@), id@),
            first_where(k as nat, p) is None,
        decreases order@.len() - k,
    {
        if str_eq(m.targets[order[k]].id.as_str(), id) {
            proof {
                assert(as_ints(order@)[k as int] == order@[k as int] as int);
                assert(p(k as int));
                lemma_first_where_stable((k + 1) as nat, order@.len(), p);
            }
            return Some(k);
        }
        proof {
            assert(as_ints(order@)[k as int] == order@[k as int] as int);
        }
        k = k + 1;
    }
    None
}

fn link_label(slot: u8) -> (r: String)
    ensures
        r@ == link_output_name(slot),
{
    if slot == 1 {
        String::from_str("Link Out")
    } else {
        let mut text = String::from_str("Link ");
        let digits = decimal_string(slot as u64);
        push_str(&mut text, digits.as_str());
        push_str(&mut text, " Out");
        text
    }
}

/// The four Link output rows, slots 1 to 4 in order.
pub fn link_output_rows(m: &MixerSnapshot, order: &Vec<usize>) -> (r: Vec<LinkOutputRow>)
    requires
        forall|k: int| 0 <= k < order@.len() ==> (#[trigger] order@[k]) < m.targets@.len(),
    ensures
        r@.len() == 4,
        forall|i: int| 0 <= i < 4 ==> link_row_ok(*m, as_ints(order@), (i + 1) as u8, #[trigger] r@[i]),
{
    let _shown = order.len();
    let mut out: Vec<LinkOutputRow> = Vec::new();
    let mut slot: u8 = 1;
    while slot <= 4
        invariant
            1 <= slot <= 5,
            out@.len() == slot - 1,
            order@.len() <= usize::MAX,
            forall|k: int| 0 <= k < order@.len() ==> (#[trigger] order@[k]) < m.targets@.len(),
            forall|i: int| 0 <= i < out@.len() ==> link_row_ok(*m, as_ints(order@), (i + 1) as u8, #[trigger] out@[i]),
        decreases 5 - slot,
    {
        let found = first_slot(m, slot);
        let (node_id, target_index) = match found {
            Some(k) => {
                let index = match &m.link_outputs[k].target_id {
                    Some(id) => match shown_position(m, order, id.as_str()) {
                        Some(p) => p + 1,
                        None => 0,
                    },
                    None => 0,
                };
                (Some(m.link_outputs[k].node_id), index)
            },
            None => (None, 0),
        };
        let row = LinkOutputRow {
            slot,
            node_id,
            label: link_label(slot),
            target_index,
            available: found.is_some(),
        };
        assert(link_row_ok(*m, as_ints(order@), slot, row));
        out.push(row);
        slot = slot + 1;
    }
    out
}

/// The source position holding the id: the first channel with it.
pub open spec fn channel_is(m: MixerSnapshot, id: Seq<char>) -> spec_fn(int) -> bool {
    |k: int| m.channels@[k].id@ == id
}

/// The source column an application is shown in: one more than the
/// position of its source, or 0 when it has none or the source is gone.
pub open spec fn application_column(m: MixerSnapshot, channel_id: Option<Seq<char>>) -> int {
    match channel_id {
        Some(id) => match first_where(m.channels@.len(), channel_is(m, id)) {
            Some(k) => k + 1,
            None => 0,
        },
        None => 0,
    }
}

fn channel_position(m: &MixerSnapshot, id: &str) -> (r: Option<usize>)
    ensures
        match r {
            Some(k) => k < m.channels@.len() && first_where(m.channels@.len(), channel_is(*m, id@)) == Some(k as int),
            None => first_where(m.channels@.len(), channel_is(*m, id@)) is None,
        },
{
    let ghost p = channel_is(*m, id@);
    let mut k: usize = 0;
    while k < m.channels.len()
        invariant
            k <= m.channels@.len(),
            p == channel_is(*m, id@),
            first_where(k as nat, p) is None,
        decreases m.channels@.len() - k,
    {
        if str_eq(m.channels[k].id.as_str(), id) {
            proof {
                assert(p(k as int));
                lemma_first_where_stable((k + 1) as nat, m.channels@.len(), p);
            }
            return Some(k);
        }
        k = k + 1;
    }
    None
}

pub open spec fn opt_text(s: Option<String>) -> Option<Seq<char>> {
    match s {
        Some(t) => Some(t@),
        None => None,
    }
}

/// The source column of each application, in snapshot order.
pub fn application_columns(m: &MixerSnapshot) -> (r: Vec<usize>)
    ensures
        r@.len() == m.applications@.len(),
        forall|i: int| 0 <= i < r@.len() ==> (#[trigger] r@[i]) as int == application_column(*m, opt_text(m.applications@[i].channel_id)),
{
    let _n = m.channels.len();
    let mut out: Vec<usize> = Vec::new();
    let mut i: usize = 0;
    while i < m.applications.len()
        invariant
            i <= m.applications@.len(),
            m.channels@.len() <= usize::MAX,
            out@.len() == i,
            forall|j: int| 0 <= j < i ==> (#[trigger] out@[j]) as int == application_column(*m, opt_text(m.applications@[j].channel_id)),
        decreases m.applications@.len() - i,
    {
        let column = match &m.applications[i].channel_id {
            Some(id) => match channel_position(m, id.as_str()) {
                Some(k) => k + 1,
                None => 0,
            },
            None => 0,
        };
        out.push(column);
        i = i + 1;
    }
    out
}

/// The column of a Link destination: System 0, Link 1 to 4 as 1 to 4.
pub open spec fn link_column(channel: LinkChannel) -> usize {
    match channel {
        LinkChannel::System => 0,
        LinkChannel::Link1 => 1,
        LinkChannel::Link2 => 2,
        LinkChannel::Link3 => 3,
        LinkChannel::Link4 => 4,
    }
}

/// The position of the first offered device with the id.
pub open spec fn device_is(choices: Seq<crate::model::MixerDeviceChoice>, id: Seq<char>) -> spec_fn(int) -> bool {
    |k: int| choices[k].id@ == id
}

/// The selected entry of a device list: the first device with the selected
/// id, or none when nothing is selected or the device is not offered.
pub open spec fn selected_device(choices: Seq<crate::model::MixerDeviceChoice>, selected: Option<Seq<char>>) -> Option<int> {
    match selected {
        Some(id) => first_where(choices.len(), device_is(choices, id)),
        None => None,
    }
}

fn selected_position(choices: &Vec<crate::model::MixerDeviceChoice>, selected: &Option<String>) -> (r: Option<usize>)
    ensures
        match r {
            Some(k) => k < choices@.len() && selected_device(choices@, opt_text(*selected)) == Some(k as int),
            None => selected_device(choices@, opt_text(*selected)) is None,
        },
{
    let id = match selected {
        Some(id) => id.as_str(),
        None => return None,
    };
    assert(opt_text(*selected) == Some(id@));
    let ghost p = device_is(choices@, id@);
    let mut k: usize = 0;
    while k < choices.len()
        invariant
            k <= choices@.len(),
            p == device_is(choices@, id@),
            opt_text(*selected) == Some(id@),
            first_where(k as nat, p) is None,
        decreases choices@.len() - k,
    {
        if str_eq(choices[k].id.as_str(), id) {
            proof {
                assert(p(k as int));
                lemma_first_where_stable((k + 1) as nat, choices@.len(), p);
            }
            return Some(k);
        }
        k = k + 1;
    }
    None
}

/// One row of the hotkey settings: its section heading (shown on a
/// section's first row), its label and the action it triggers.
#[derive(Debug, Clone, PartialEq, Eq)]
pub struct HotkeyRow {
    pub section: String,
    pub label: String,
    pub action: String,
}

pub open spec fn hotkey_view(h: HotkeyRow) -> (Seq<char>, Seq<char>, Seq<char>) {
    (h.section@, h.label@, h.action@)
}

/// The hotkey rows: the Personal Mix device toggle, loading each mixer
/// profile, then muting each source.
pub open spec fn hotkey_rows(m: MixerSnapshot, profiles: Seq<String>) -> Seq<(Seq<char>, Seq<char>, Seq<char>)> {
    seq![("MIX DEVICES"@, "Toggle Personal Mix Device"@, "mix:toggle-personal-device"@)] + Seq::new(
        profiles.len(),
        |i: int| (if i == 0 { "MIXER PROFILES"@ } else { Seq::empty() }, profiles[i]@, "profile:"@ + profiles[i]@),
    ) + Seq::new(
        m.channels@.len(),
        |i: int| (
            if i == 0 { "MUTES"@ } else { Seq::empty() },
            m.channels@[i].name@ + " - Mute"@,
            "mute:"@ + m.channels@[i].id@,
        ),
    )
}

fn joined(a: &str, b: &str) -> (r: String)
    ensures
        r@ == a@ + b@,
{
    let mut s = String::from_str(a);
    push_str(&mut s, b);
    s
}

/// The hotkey rows of the settings page.
pub fn hotkey_setting_rows(m: &MixerSnapshot, profiles: &[String]) -> (r: Vec<HotkeyRow>)
    ensures
        r@.map_values(|h: HotkeyRow| hotkey_view(h)) == hotkey_rows(*m, profiles@),
{
    let mut out: Vec<HotkeyRow> = Vec::new();
    out.push(HotkeyRow {
        section: String::from_str("MIX DEVICES"),
        label: String::from_str("Toggle Personal Mix Device"),
        action: String::from_str("mix:toggle-personal-device"),
    });
    let ghost head = seq![("MIX DEVICES"@, "Toggle Personal Mix Device"@, "mix:toggle-personal-device"@)];
    let ghost prof = Seq::new(
        profiles@.len(),
        |i: int| (if i == 0 { "MIXER PROFILES"@ } else { Seq::<char>::empty() }, profiles@[i]@, "profile:"@ + profiles@[i]@),
    );
    let ghost mutes = Seq::new(
        m.channels@.len(),
        |i: int| (
            if i == 0 { "MUTES"@ } else { Seq::<char>::empty() },
            m.channels@[i].name@ + " - Mute"@,
            "mute:"@ + m.channels@[i].id@,
        ),
    );
    assert(out@.map_values(|h: HotkeyRow| hotkey_view(h)) =~= head + prof.take(0));
    let mut i: usize = 0;
    while i < profiles.len()
        invariant
            i <= profiles@.len(),
            prof == Seq::new(
                profiles@.len(),
                |i: int| (if i == 0 { "MIXER PROFILES"@ } else { Seq::<char>::empty() }, profiles@[i]@, "profile:"@ + profiles@[i]@),
            ),
            out@.map_values(|h: HotkeyRow| hotkey_view(h)) == head + prof.take(i as int),
        decreases profiles@.len() - i,
    {
        let section = if i == 0 {
            String::from_str("MIXER PROFILES")
        } else {
            String::new()
        };
        let row = HotkeyRow {
            section,
            label: String::from_str(profiles[i].as_str()),
            action: joined("profile:", profiles[i].as_str()),
        };
        let ghost prev = out@;
        out.push(row);
        assert(out@.map_values(|h: HotkeyRow| hotkey_view(h)) =~= prev.map_values(|h: HotkeyRow| hotkey_view(h)).push(hotkey_view(row)));
        assert(prof.take(i + 1) =~= prof.take(i as int).push(prof[i as int]));
        i = i + 1;
    }
    assert(prof.take(profiles@.len() as int) =~= prof);
    assert(out@.map_values(|h: HotkeyRow| hotkey_view(h)) =~= head + prof + mutes.take(0));
    let mut j: usize = 0;
    while j < m.channels.len()
        invariant
            j <= m.channels@.len(),
            mutes == Seq::new(
                m.channels@.len(),
                |i: int| (
                    if i == 0 { "MUTES"@ } else { Seq::<char>::empty() },
                    m.channels@[i].name@ + " - Mute"@,
                    "mute:"@ + m.channels@[i].id@,
                ),
            ),
            out@.map_values(|h: HotkeyRow| hotkey_view(h)) == head + prof + mutes.take(j as int),
        decreases m.channels@.len() - j,
    {
        let section = if j == 0 {
            String::from_str("MUTES")
        } else {
            String::new()
        };
        let row = HotkeyRow {
            section,
            label: joined(m.channels[j].name.as_str(), " - Mute"),
            action: joined("mute:", m.channels[j].id.as_str()),
        };
        let ghost prev = out@;
        out.push(row);
        assert(out@.map_values(|h: HotkeyRow| hotkey_view(h)) =~= prev.map_values(|h: HotkeyRow| hotkey_view(h)).push(hotkey_view(row)));
        assert(mutes.take(j + 1) =~= mutes.take(j as int).push(mutes[j as int]));
        j = j + 1;
    }
    assert(mutes.take(m.channels@.len() as int) =~= mutes);
    out
}

/// The value of one ASCII hexadecimal digit.
pub open spec fn hex_digit_value(c: char) -> nat {
    if '0' <= c && c <= '9' {
        (c as u32 - 48) as nat
    } else if 'a' <= c && c <= 'f' {
        (c as u32 - 87) as nat
    } else {
        (c as u32 - 55) as nat
    }
}

/// The value of a run of hexadecimal digits.
pub open spec fn hex_value(s: Seq<char>) -> nat
    decreases s.len(),
{
    if s.len() == 0 {
        0
    } else {
        hex_value(s.drop_last()) * 16 + hex_digit_value(s.last())
    }
}

/// The digits of a number in text: without one leading `+`.
pub open spec fn unsigned_digits(s: Seq<char>) -> Seq<char> {
    if s.len() > 0 && s[0] == '+' {
        s.drop_first()
    } else {
        s
    }
}

/// A nonempty run of hexadecimal digits whose value fits in a `u32`.
pub open spec fn hex_digits_u32(d: Seq<char>) -> Option<u32> {
    if d.len() > 0 && (forall|i: int| 0 <= i < d.len() ==> is_ascii_hex(#[trigger] d[i]))
        && hex_value(d) <= u32::MAX {
        Some(hex_value(d) as u32)
    } else {
        None
    }
}

/// The text as `u32::from_str_radix(_, 16)` reads it: an optional `+`, then
/// at least one hexadecimal digit and nothing else, of a value that fits.
pub open spec fn hex_u32(s: Seq<char>) -> Option<u32> {
    hex_digits_u32(unsigned_digits(s))
}

/// The colour shown for a source, as opaque ARGB: the hexadecimal value after
/// a leading `#`, or teal when the text is not one.
pub open spec fn colour_argb(colour: Seq<char>) -> u32 {
    let rgb = if colour.len() > 0 && colour[0] == '#' {
        match hex_u32(colour.drop_first()) {
            Some(v) => v,
            None => 0x58d5cbu32,
        }
    } else {
        0x58d5cbu32
    };
    0xff00_0000u32 | rgb
}

fn parse_hex_u32(text: &str) -> (r: Option<u32>)
    ensures
        r == hex_u32(text@),
{
    let chars = chars_of(text);
    let start: usize = if chars.len() > 0 && chars[0] == '+' {
        1
    } else {
        0
    };
    let ghost d = unsigned_digits(text@);
    assert(d =~= chars@.subrange(start as int, chars@.len() as int));
    if start >= chars.len() {
        return None;
    }
    let mut value: u64 = 0;
    let mut over = false;
    let mut i: usize = start;
    while i < chars.len()
        invariant
            chars@ == text@,
            start <= i <= chars@.len(),
            d == unsigned_digits(text@),
            d == chars@.subrange(start as int, chars@.len() as int),
            forall|j: int| 0 <= j < i - start ==> is_ascii_hex(#[trigger] d[j]),
            !over ==> value == hex_value(d.take(i - start)) && value <= u32::MAX,
            over ==> hex_value(d.take(i - start)) > u32::MAX,
        decreases chars@.len() - i,
    {
        let c = chars[i];
        let digit: u64 = if '0' <= c && c <= '9' {
            (c as u32 - 48) as u64
        } else if 'a' <= c && c <= 'f' {
            (c as u32 - 87) as u64
        } else if 'A' <= c && c <= 'F' {
            (c as u32 - 55) as u64
        } else {
            assert(!is_ascii_hex(d[i - start]));
            assert(!(forall|j: int| 0 <= j < d.len() ==> is_ascii_hex(#[trigger] d[j])));
            return None;
        };
        let ghost k = i - start;
        assert(d.take(k + 1).drop_last() =~= d.take(k));
        assert(d.take(k + 1).last() == c);
        if !over {
            let next = value * 16 + digit;
            if next > 0xffff_ffffu64 {
                over = true;
            } else {
                value = next;
            }
        }
        i = i + 1;
    }
    assert(d.take(d.len() as int) =~= d);
    if over {
        None
    } else {
        Some(value as u32)
    }
}

fn colour_of(colour: &str) -> (r: u32)
    ensures
        r == colour_argb(colour@),
{
    let n = colour.unicode_len();
    let rgb: u32 = if n > 0 && colour.get_char(0) == '#' {
        let rest = colour.substring_char(1, n);
        assert(rest@ =~= colour@.drop_first());
        match parse_hex_u32(rest) {
            Some(v) => v,
            None => 0x58d5cbu32,
        }
    } else {
        0x58d5cbu32
    };
    0xff00_0000u32 | rgb
}

/// The inputs that are the device `device`.
pub open spec fn input_is(inputs: Seq<MixerPhysicalDeviceChoice>, device: MixerPhysicalDeviceDescriptor) -> spec_fn(int) -> bool {
    |k: int| device_matches(device, inputs[k].descriptor)
}

/// The attached devices that are one of the inputs.
pub open spec fn attached_is_input(attached: Seq<MixerPhysicalDeviceDescriptor>, inputs: Seq<MixerPhysicalDeviceChoice>) -> spec_fn(int) -> bool {
    |a: int| first_where(inputs.len(), input_is(inputs, attached[a])) is Some
}

/// The position among the inputs of the first attached device that is one.
pub open spec fn input_index(attached: Seq<MixerPhysicalDeviceDescriptor>, inputs: Seq<MixerPhysicalDeviceChoice>) -> Option<int> {
    match first_where(attached.len(), attached_is_input(attached, inputs)) {
        Some(a) => first_where(inputs.len(), input_is(inputs, attached[a])),
        None => None,
    }
}

fn input_position(inputs: &Vec<MixerPhysicalDeviceChoice>, device: &MixerPhysicalDeviceDescriptor) -> (r: Option<usize>)
    ensures
        match r {
            Some(k) => first_where(inputs@.len(), input_is(inputs@, *device)) == Some(k as int),
            None => first_where(inputs@.len(), input_is(inputs@, *device)) is None,
        },
{
    let ghost p = input_is(inputs@, *device);
    let mut k: usize = 0;
    while k < inputs.len()
        invariant
            k <= inputs@.len(),
            p == input_is(inputs@, *device),
            first_where(k as nat, p) is None,
        decreases inputs@.len() - k,
    {
        if physical_device_matches(device, &inputs[k].descriptor) {
            proof {
                assert(p(k as int));
                lemma_first_where_stable((k + 1) as nat, inputs@.len(), p);
            }
            return Some(k);
        }
        k = k + 1;
    }
    None
}

fn input_device_index(attached: &Vec<MixerPhysicalDeviceDescriptor>, inputs: &Vec<MixerPhysicalDeviceChoice>) -> (r: Option<usize>)
    ensures
        match r {
            Some(k) => input_index(attached@, inputs@) == Some(k as int),
            None => input_index(attached@, inputs@) is None,
        },
{
    let ghost q = attached_is_input(attached@, inputs@);
    let mut a: usize = 0;
    while a < attached.len()
        invariant
            a <= attached@.len(),
            q == attached_is_input(attached@, inputs@),
            first_where(a as nat, q) is None,
        decreases attached@.len() - a,
    {
        let found = input_position(inputs, &attached[a]);
        if found.is_some() {
            proof {
                assert(q(a as int));
                lemma_first_where_stable((a + 1) as nat, attached@.len(), q);
            }
            return found;
        }
        assert(!q(a as int));
        a = a + 1;
    }
    None
}

/// One source row of the mixer panel. Its level meter and its mute hotkey
/// action (a saved preference) are not part of it.
#[derive(Debug, Clone, PartialEq, Eq)]
pub struct SourceRow {
    pub channel_id: String,
    pub meter_id: String,
    pub name: String,
    /// The applications routed to it, one per line, or what kind of source it is.
    pub detail: String,
    pub personal: u8,
    pub audience: u8,
    pub linked: bool,
    pub personal_muted: bool,
    pub audience_muted: bool,
    pub physical: bool,
    /// The colour as opaque ARGB.
    pub colour: u32,
    /// The physical input the source is attached to, if one is.
    pub input_device_index: Option<usize>,
}

/// The row shown for channel `c`, given the physical inputs.
pub open spec fn source_row_ok(c: MixerChannel, inputs: Seq<MixerPhysicalDeviceChoice>, row: SourceRow) -> bool {
    &&& row.channel_id@ == c.id@
    &&& row.meter_id@ == c.meter_id@
    &&& row.name@ == c.name@
    &&& row.detail@ == channel_detail_spec(c)
    &&& row.personal == c.personal_volume
    &&& row.audience == c.audience_volume
    &&& row.linked == c.volumes_linked
    &&& row.personal_muted == (c.mute_state == MuteState::MutedAll || c.mute_state
        == MuteState::MutedPersonal)
    &&& row.audience_muted == (c.mute_state == MuteState::MutedAll || c.mute_state
        == MuteState::MutedAudience)
    &&& row.physical == (c.source_kind == MixerSourceKind::Physical)
    &&& row.colour == colour_argb(c.colour@)
    &&& match row.input_device_index {
        Some(k) => input_index(c.attached_devices@, inputs) == Some(k as int),
        None => input_index(c.attached_devices@, inputs) is None,
    }
}

/// The source rows, one per channel in snapshot order.
pub fn source_rows(m: &MixerSnapshot) -> (r: Vec<SourceRow>)
    ensures
        r@.len() == m.channels@.len(),
        forall|i: int| 0 <= i < r@.len() ==> source_row_ok(m.channels@[i], m.physical_inputs@, #[trigger] r@[i]),
{
    let mut out: Vec<SourceRow> = Vec::new();
    let mut i: usize = 0;
    while i < m.channels.len()
        invariant
            i <= m.channels@.len(),
            out@.len() == i,
            forall|j: int| 0 <= j < i ==> source_row_ok(m.channels@[j], m.physical_inputs@, #[trigger] out@[j]),
        decreases m.channels@.len() - i,
    {
        let c = &m.channels[i];
        let row = SourceRow {
            channel_id: copy_str(&c.id),
            meter_id: copy_str(&c.meter_id),
            name: copy_str(&c.name),
            detail: channel_detail(c),
            personal: c.personal_volume,
            audience: c.audience_volume,
            linked: c.volumes_linked,
            personal_muted: match c.mute_state {
                MuteState::MutedAll | MuteState::MutedPersonal => true,
                _ => false,
            },
            audience_muted: match c.mute_state {
                MuteState::MutedAll | MuteState::MutedAudience => true,
                _ => false,
            },
            physical: match c.source_kind {
                MixerSourceKind::Physical => true,
                MixerSourceKind::Virtual => false,
            },
            colour: colour_of(c.colour.as_str()),
            input_device_index: input_device_index(&c.attached_devices, &m.physical_inputs),
        };
        out.push(row);
        i = i + 1;
    }
    out
}

/// The display order holds every target once: its length is the number of
/// targets.
pub proof fn lemma_target_order_len(ts: Seq<MixerTarget>)
    ensures
        target_order(ts).len() == ts.len(),
{
    lemma_rank_counts(ts, ts.len());
    assert(order_upto(ts, 1) == order_upto(ts, 0) + rank_indices(ts, 0, ts.len()));
    assert(order_upto(ts, 0).len() == 0);
}

proof fn lemma_rank_indices_ranked(ts: Seq<MixerTarget>, r: nat, n: nat)
    requires
        n <= ts.len(),
    ensures
        forall|k: int|
            0 <= k < rank_indices(ts, r, n).len() ==> 0 <= #[trigger] rank_indices(ts, r, n)[k] < n
                && target_rank(ts[rank_indices(ts, r, n)[k]].name@) == r,
        forall|i: int, j: int|
            0 <= i < j < rank_indices(ts, r, n).len() ==> #[trigger] rank_indices(ts, r, n)[i]
                < #[trigger] rank_indices(ts, r, n)[j],
    decreases n,
{
    if n > 0 {
        lemma_rank_indices_ranked(ts, r, (n - 1) as nat);
        let a = rank_indices(ts, r, (n - 1) as nat);
        let b = rank_indices(ts, r, n);
        assert forall|k: int| 0 <= k < b.len() implies 0 <= #[trigger] b[k] < n && target_rank(ts[b[k]].name@) == r by {
            if k < a.len() {
                assert(b[k] == a[k]);
            }
        }
        assert forall|i: int, j: int| 0 <= i < j < b.len() implies #[trigger] b[i] < #[trigger] b[j] by {
            assert(b[i] == a[i]);
            if j < a.len() {
                assert(b[j] == a[j]);
            }
        }
    }
}

proof fn lemma_order_upto_ranked(ts: Seq<MixerTarget>, r: nat)
    ensures
        forall|k: int|
            0 <= k < order_upto(ts, r).len() ==> 0 <= #[trigger] order_upto(ts, r)[k] < ts.len()
                && target_rank(ts[order_upto(ts, r)[k]].name@) < r,
        forall|i: int, j: int|
            0 <= i < j < order_upto(ts, r).len() ==> {
                let p = #[trigger] order_upto(ts, r)[i];
                let q = #[trigger] order_upto(ts, r)[j];
                target_rank(ts[p].name@) < target_rank(ts[q].name@) || (target_rank(ts[p].name@)
                    == target_rank(ts[q].name@) && p < q)
            },
    decreases r,
{
    if r > 0 {
        lemma_order_upto_ranked(ts, (r - 1) as nat);
        lemma_rank_indices_ranked(ts, (r - 1) as nat, ts.len());
        let a = order_upto(ts, (r - 1) as nat);
        let b = rank_indices(ts, (r - 1) as nat, ts.len());
        let o = order_upto(ts, r);
        assert(o == a + b);
        assert forall|k: int| 0 <= k < o.len() implies 0 <= #[trigger] o[k] < ts.len() && target_rank(
            ts[o[k]].name@,
        ) < r by {
            if k < a.len() {
                assert(o[k] == a[k]);
            } else {
                assert(o[k] == b[k - a.len()]);
            }
        }
        assert forall|i: int, j: int| 0 <= i < j < o.len() implies {
            let p = #[trigger] o[i];
            let q = #[trigger] o[j];
            target_rank(ts[p].name@) < target_rank(ts[q].name@) || (target_rank(ts[p].name@)
                == target_rank(ts[q].name@) && p < q)
        } by {
            if j < a.len() {
                assert(o[i] == a[i]);
                assert(o[j] == a[j]);
            } else if i < a.len() {
                assert(o[i] == a[i]);
                assert(o[j] == b[j - a.len()]);
            } else {
                assert(o[i] == b[i - a.len()]);
                assert(o[j] == b[j - a.len()]);
            }
        }
    }
}

/// Whether a target name is one of the four that lead the display order.
pub open spec fn leading_target_name(name: Seq<char>) -> bool {
    name == "Headphones"@ || name == "Audience Mix"@ || name == "Voice Chat Mic"@ || name == "VOD Track"@
}

/// The display order puts every Headphones target first, then every Audience
/// Mix target, then every Voice Chat Mic target, then every VOD Track target,
/// then all other targets; targets of the same name, and all the other
/// targets among themselves, keep their snapshot order; no target is shown
/// twice.
pub proof fn lemma_display_order_priority(ts: Seq<MixerTarget>, i: int, j: int)
    requires
        0 <= i < j < target_order(ts).len(),
    ensures
        ({
            let p = target_order(ts)[i];
            let q = target_order(ts)[j];
            let a = ts[p].name@;
            let b = ts[q].name@;
            &&& b == "Headphones"@ ==> a == "Headphones"@
            &&& b == "Audience Mix"@ ==> a == "Headphones"@ || a == "Audience Mix"@
            &&& b == "Voice Chat Mic"@ ==> a == "Headphones"@ || a == "Audience Mix"@ || a
                == "Voice Chat Mic"@
            &&& b == "VOD Track"@ ==> leading_target_name(a)
            &&& !leading_target_name(a) ==> !leading_target_name(b)
            &&& (a == b || (!leading_target_name(a) && !leading_target_name(b))) ==> p < q
            &&& p != q
        }),
{
    lemma_order_upto_ranked(ts, 5);
    reveal_strlit("Headphones");
    reveal_strlit("Audience Mix");
    reveal_strlit("Voice Chat Mic");
    reveal_strlit("VOD Track");
    let p = target_order(ts)[i];
    let q = target_order(ts)[j];
    assert(target_rank(ts[p].name@) < target_rank(ts[q].name@) || (target_rank(ts[p].name@)
        == target_rank(ts[q].name@) && p < q));
}

/// Every one of the first `n` targets has exactly one rank below five, so the
/// five rank lists together hold `n` positions.
proof fn lemma_rank_counts(ts: Seq<MixerTarget>, n: nat)
    ensures
        rank_indices(ts, 0, n).len() + rank_indices(ts, 1, n).len() + rank_indices(ts, 2, n).len()
            + rank_indices(ts, 3, n).len() + rank_indices(ts, 4, n).len() == n,
        order_upto(ts, 5).len() == rank_indices(ts, 0, ts.len()).len() + rank_indices(ts, 1, ts.len()).len()
            + rank_indices(ts, 2, ts.len()).len() + rank_indices(ts, 3, ts.len()).len() + rank_indices(ts, 4, ts.len()).len(),
    decreases n,
{
    if n > 0 {
        lemma_rank_counts(ts, (n - 1) as nat);
    }
    reveal_with_fuel(order_upto, 6);
}

/// The display model of a snapshot, without any toolkit.
#[derive(Debug, Clone, PartialEq, Eq)]
pub struct SnapshotView {
    /// The targets' positions, in display order.
    pub target_order: Vec<usize>,
    /// One row per source, in snapshot order.
    pub sources: Vec<SourceRow>,
    pub routes: Vec<RouteCell>,
    pub link_outputs: Vec<LinkOutputRow>,
    /// Per application: 0 unassigned, else one more than its source column.
    pub application_columns: Vec<usize>,
    /// Per linked Windows application: its Link destination column.
    pub link_application_columns: Vec<usize>,
    pub default_input_index: Option<usize>,
    pub default_output_index: Option<usize>,
    pub hotkeys: Vec<HotkeyRow>,
}

/// Builds the display model of a snapshot with the saved profile names.
pub fn snapshot_view(s: &AppSnapshot, profiles: &[String]) -> (r: SnapshotView)
    ensures
        as_ints(r.target_order@) == target_order(s.mixer.targets@),
        r.target_order@.len() == s.mixer.targets@.len(),
        r.sources@.len() == s.mixer.channels@.len(),
        forall|i: int| 0 <= i < r.sources@.len() ==> source_row_ok(
            s.mixer.channels@[i],
            s.mixer.physical_inputs@,
            #[trigger] r.sources@[i],
        ),
        r.routes@.map_values(|c: RouteCell| cell_view(c)) == grid_rows(s.mixer, target_order(s.mixer.targets@), target_order(s.mixer.targets@).len()),
        r.routes@.len() == r.target_order@.len() * s.mixer.channels@.len(),
        r.link_outputs@.len() == 4,
        forall|i: int| 0 <= i < 4 ==> link_row_ok(s.mixer, target_order(s.mixer.targets@), (i + 1) as u8, #[trigger] r.link_outputs@[i]),
        r.application_columns@.len() == s.mixer.applications@.len(),
        forall|i: int| 0 <= i < r.application_columns@.len() ==> (#[trigger] r.application_columns@[i]) as int
            == application_column(s.mixer, opt_text(s.mixer.applications@[i].channel_id)),
        r.link_application_columns@.len() == s.studio.linked_applications@.len(),
        forall|i: int| 0 <= i < r.link_application_columns@.len() ==> #[trigger] r.link_application_columns@[i]
            == link_column(s.studio.linked_applications@[i].channel),
        match r.default_input_index {
            Some(k) => selected_device(s.mixer.default_inputs@, opt_text(s.mixer.default_input)) == Some(k as int),
            None => selected_device(s.mixer.default_inputs@, opt_text(s.mixer.default_input)) is None,
        },
        match r.default_output_index {
            Some(k) => selected_device(s.mixer.default_outputs@, opt_text(s.mixer.default_output)) == Some(k as int),
            None => selected_device(s.mixer.default_outputs@, opt_text(s.mixer.default_output)) is None,
        },
        r.hotkeys@.map_values(|h: HotkeyRow| hotkey_view(h)) == hotkey_rows(s.mixer, profiles@),
{
    let order = display_target_order(&s.mixer.targets);
    proof {
        lemma_target_order_len(s.mixer.targets@);
        assert(order@.len() == as_ints(order@).len());
    }
    let sources = source_rows(&s.mixer);
    let routes = route_grid_cells(&s.mixer, &order);
    let link_outputs = link_output_rows(&s.mixer, &order);
    let mut link_columns: Vec<usize> = Vec::new();
    let mut i: usize = 0;
    while i < s.studio.linked_applications.len()
        invariant
            i <= s.studio.linked_applications@.len(),
            link_columns@.len() == i,
            forall|j: int| 0 <= j < i ==> #[trigger] link_columns@[j] == link_column(s.studio.linked_applications@[j].channel),
        decreases s.studio.linked_applications@.len() - i,
    {
        let column: usize = match s.studio.linked_applications[i].channel {
            LinkChannel::System => 0,
            LinkChannel::Link1 => 1,
            LinkChannel::Link2 => 2,
            LinkChannel::Link3 => 3,
            LinkChannel::Link4 => 4,
        };
        link_columns.push(column);
        i = i + 1;
    }
    SnapshotView {
        target_order: order,
        sources,
        routes,
        link_outputs,
        application_columns: application_columns(&s.mixer),
        link_application_columns: link_columns,
        default_input_index: selected_position(&s.mixer.default_inputs, &s.mixer.default_input),
        default_output_index: selected_position(&s.mixer.default_outputs, &s.mixer.default_output),
        hotkeys: hotkey_setting_rows(&s.mixer, profiles),
    }
}

} // verus!
