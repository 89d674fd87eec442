use vstd::prelude::*;
use crate::replay::TradeOpportunity;

verus! {

/// Direction in which a table column is sorted.
#[derive(Debug, Clone, Copy, PartialEq, Eq, Structural)]
pub enum SortDirection {
    Ascending,
    Descending,
}

impl Default for SortDirection {
    fn default() -> (r: Self)
        ensures
            r == SortDirection::Descending,
    {
        SortDirection::Descending
    }
}

impl SortDirection {
    /// The opposite direction.
    pub fn toggle(&self) -> (r: Self)
        ensures
            r == (match *self {
                SortDirection::Ascending => SortDirection::Descending,
                SortDirection::Descending => SortDirection::Ascending,
            }),
    {
        match self {
            SortDirection::Ascending => SortDirection::Descending,
            SortDirection::Descending => SortDirection::Ascending,
        }
    }
}

/// Toggling a sort direction twice gives it back.
pub proof fn law_toggle_involution(d: SortDirection)
    ensures
        (match (match d {
            SortDirection::Ascending => SortDirection::Descending,
            SortDirection::Descending => SortDirection::Ascending,
        }) {
            SortDirection::Ascending => SortDirection::Descending,
            SortDirection::Descending => SortDirection::Ascending,
        }) == d,
{
}

/// Whether the price axis follows the visible candles.
#[derive(Debug, Clone, Copy, PartialEq, Eq, Structural)]
pub struct AutoScaleY(pub bool);

impl AutoScaleY {
    /// The setting.
    pub fn value(&self) -> (r: bool)
        ensures
            r == self.0,
    {
        self.0
    }
}

impl Default for AutoScaleY {
    /// On.
    fn default() -> (r: Self)
        ensures
            r.0,
    {
        AutoScaleY(true)
    }
}

/// What the user has selected.
#[derive(Debug, Clone)]
pub enum Selection {
    Nothing,
    Pair(String),
    Opportunity(TradeOpportunity),
}

/// The pair a selection refers to.
pub open spec fn selected_pair(s: Selection) -> Option<Seq<char>> {
    match s {
        Selection::Nothing => None,
        Selection::Pair(p) => Some(p@),
        Selection::Opportunity(op) => Some(op.pair_name@),
    }
}

impl Selection {
    /// The selected pair, owned.
    pub fn pair_owned(&self) -> (r: Option<String>)
        ensures
            match selected_pair(*self) {
                Some(p) => r is Some && r.unwrap()@ == p,
                None => r is None,
            },
    {
        match self {
            Selection::Pair(p) => Some(p.clone()),
            Selection::Opportunity(op) => Some(op.pair_name.clone()),
            Selection::Nothing => None,
        }
    }

    /// The selected pair, borrowed.
    pub fn pair(&self) -> (r: Option<&str>)
        ensures
            match selected_pair(*self) {
                Some(p) => r is Some && r.unwrap()@ == p,
                None => r is None,
            },
    {
        match self {
            Selection::Pair(p) => Some(p.as_str()),
            Selection::Opportunity(op) => Some(op.pair_name.as_str()),
            Selection::Nothing => None,
        }
    }

    /// The selected opportunity, if an opportunity is selected.
    pub fn opportunity(&self) -> (r: Option<&TradeOpportunity>)
        ensures
            match *self {
                Selection::Opportunity(op) => r == Some(&op),
                _ => r is None,
            },
    {
        match self {
            Selection::Opportunity(op) => Some(op),
            _ => None,
        }
    }
}

/// The selection as it is saved between sessions.
#[derive(Debug, Clone)]
pub enum PersistedSelection {
    Nothing,
    Pair(String),
    Opportunity { pair: String, opportunity_id: String },
}

/// What is saved for a selection: the user's intent, by name.
pub open spec fn persisted_spec(s: Selection) -> PersistedSelection {
    match s {
        Selection::Nothing => PersistedSelection::Nothing,
        Selection::Pair(p) => PersistedSelection::Pair(p),
        Selection::Opportunity(op) => PersistedSelection::Opportunity {
            pair: op.pair_name,
            opportunity_id: op.id,
        },
    }
}

/// The selection to save.
pub fn persist_selection(s: &Selection) -> (r: PersistedSelection)
    ensures
        r == persisted_spec(*s),
{
    match s {
        Selection::Nothing => PersistedSelection::Nothing,
        Selection::Pair(p) => PersistedSelection::Pair(p.clone()),
        Selection::Opportunity(op) => PersistedSelection::Opportunity {
            pair: op.pair_name.clone(),
            opportunity_id: op.id.clone(),
        },
    }
}

/// `pairs` holds `p`.
pub open spec fn has_pair(pairs: Seq<String>, p: Seq<char>) -> bool {
    exists|i: int| 0 <= i < pairs.len() && #[trigger] pairs[i]@ == p
}

/// Index of the first opportunity at or after `from` with id `id`.
pub open spec fn opportunity_index(ledger: Seq<TradeOpportunity>, id: Seq<char>, from: int) -> Option<int>
    decreases ledger.len() - from,
{
    if from < 0 || from >= ledger.len() {
        None
    } else if ledger[from].id@ == id {
        Some(from)
    } else {
        opportunity_index(ledger, id, from + 1)
    }
}

/// The selection restored from `persisted` before the fallback: a saved
/// pair if it is valid this session; a saved opportunity if the ledger
/// still holds it, else its pair if valid; otherwise nothing.
pub open spec fn restored_spec(
    persisted: PersistedSelection,
    valid_pairs: Seq<String>,
    ledger: Option<Seq<TradeOpportunity>>,
) -> Selection {
    match persisted {
        PersistedSelection::Nothing => Selection::Nothing,
        PersistedSelection::Pair(p) => if has_pair(valid_pairs, p@) {
            Selection::Pair(p)
        } else {
            Selection::Nothing
        },
        PersistedSelection::Opportunity { pair, opportunity_id } => match ledger {
            Some(l) => match opportunity_index(l, opportunity_id@, 0) {
                Some(i) => Selection::Opportunity(l[i]),
                None => if has_pair(valid_pairs, pair@) {
                    Selection::Pair(pair)
                } else {
                    Selection::Nothing
                },
            },
            None => Selection::Nothing,
        },
    }
}

/// The restored selection, falling back to the first valid pair when
/// nothing could be restored.
pub open spec fn restore_spec(
    persisted: PersistedSelection,
    valid_pairs: Seq<String>,
    ledger: Option<Seq<TradeOpportunity>>,
) -> Selection {
    let r = restored_spec(persisted, valid_pairs, ledger);
    if r is Nothing && valid_pairs.len() > 0 {
        Selection::Pair(valid_pairs[0])
    } else {
        r
    }
}

fn contains_pair(pairs: &Vec<String>, p: &String) -> (r: bool)
    ensures
        r == has_pair(pairs@, p@),
{
    let mut i: usize = 0;
    while i < pairs.len()
        invariant
            i <= pairs@.len(),
            forall|k: int| 0 <= k < i ==> #[trigger] pairs@[k]@ != p@,
        decreases pairs@.len() - i,
    {
        if pairs[i] == *p {
            assert(pairs@[i as int]@ == p@);
            return true;
        }
        i = i + 1;
    }
    false
}

fn find_opportunity(ledger: &Vec<TradeOpportunity>, id: &String) -> (r: Option<usize>)
    ensures
        r matches Some(i) ==> i < ledger@.len() && opportunity_index(ledger@, id@, 0) == Some(i as int),
        r is None ==> opportunity_index(ledger@, id@, 0) is None,
{
    let mut i: usize = 0;
    while i < ledger.len()
        invariant
            i <= ledger@.len(),
            opportunity_index(ledger@, id@, 0) == opportunity_index(ledger@, id@, i as int),
        decreases ledger@.len() - i,
    {
        if ledger[i].id == *id {
            return Some(i);
        }
        i = i + 1;
    }
    None
}

/// The selection to start a session with, from the saved one, the pairs
/// valid this session and the engine's ledger (`None` before the engine
/// exists).
pub fn restore_initial_selection(
    persisted: &PersistedSelection,
    valid_pairs: &Vec<String>,
    ledger: Option<&Vec<TradeOpportunity>>,
) -> (r: Selection)
    ensures
        r == restore_spec(
            *persisted,
            valid_pairs@,
            match ledger {
                Some(l) => Some(l@),
                None => None,
            },
        ),
{
    let restored = match persisted {
        PersistedSelection::Nothing => Selection::Nothing,
        PersistedSelection::Pair(p) => {
            if contains_pair(valid_pairs, p) {
                Selection::Pair(p.clone())
            } else {
                Selection::Nothing
            }
        },
        PersistedSelection::Opportunity { pair, opportunity_id } => match ledger {
            Some(l) => match find_opportunity(l, opportunity_id) {
                Some(i) => Selection::Opportunity(l[i].duplicate()),
                None => {
                    if contains_pair(valid_pairs, pair) {
                        Selection::Pair(pair.clone())
                    } else {
                        Selection::Nothing
                    }
                },
            },
            None => Selection::Nothing,
        },
    };
    match restored {
        Selection::Nothing => {
            if valid_pairs.len() > 0 {
                Selection::Pair(valid_pairs[0].clone())
            } else {
                Selection::Nothing
            }
        },
        other => other,
    }
}

/// The selection names a pair that is valid this session.
pub open spec fn selection_valid(s: Selection, valid_pairs: Seq<String>) -> bool {
    match selected_pair(s) {
        Some(p) => has_pair(valid_pairs, p),
        None => false,
    }
}

/// `s` when it is valid, else the first valid pair (when there is one).
pub open spec fn healed_selection(s: Selection, valid_pairs: Seq<String>) -> Selection {
    if selection_valid(s, valid_pairs) {
        s
    } else if valid_pairs.len() > 0 {
        Selection::Pair(valid_pairs[0])
    } else {
        s
    }
}

/// Keeps the selection when its pair is valid this session; otherwise
/// selects the first valid pair (if any).
pub fn ensure_valid_selection(selection: &mut Selection, valid_pairs: &Vec<String>)
    ensures
        *final(selection) == healed_selection(*old(selection), valid_pairs@),
{
    let valid = match selection {
        Selection::Pair(p) => contains_pair(valid_pairs, p),
        Selection::Opportunity(op) => contains_pair(valid_pairs, &op.pair_name),
        Selection::Nothing => false,
    };
    if valid {
        return;
    }
    if valid_pairs.len() > 0 {
        *selection = Selection::Pair(valid_pairs[0].clone());
    }
}

/// `ids` holds `id`.
pub open spec fn has_id(ids: Seq<String>, id: Seq<char>) -> bool {
    exists|i: int| 0 <= i < ids.len() && #[trigger] ids[i]@ == id
}

/// Falls back from a selected opportunity to its pair when the
/// opportunity's id is among `removed_ids`.
pub fn clear_selection_if_opportunity_removed(selection: &mut Selection, removed_ids: &Vec<String>)
    ensures
        match *old(selection) {
            Selection::Opportunity(op) => if has_id(removed_ids@, op.id@) {
                *final(selection) == Selection::Pair(op.pair_name)
            } else {
                *final(selection) == *old(selection)
            },
            _ => *final(selection) == *old(selection),
        },
{
    let replacement = match selection {
        Selection::Opportunity(op) => {
            if contains_pair(removed_ids, &op.id) {
                Some(op.pair_name.clone())
            } else {
                None
            }
        },
        _ => None,
    };
    if let Some(p) = replacement {
        *selection = Selection::Pair(p);
    }
}

/// Where the opportunity table scrolls to.
#[derive(Debug, Clone)]
pub enum NavigationTarget {
    Opportunity(String),
    Pair(String),
}

/// The scroll target of a selection: its opportunity, else its pair.
pub fn scroll_target_for(selection: &Selection) -> (r: Option<NavigationTarget>)
    ensures
        r == match *selection {
            Selection::Opportunity(op) => Some(NavigationTarget::Opportunity(op.id)),
            Selection::Pair(p) => Some(NavigationTarget::Pair(p)),
            Selection::Nothing => None,
        },
{
    match selection {
        Selection::Opportunity(op) => Some(NavigationTarget::Opportunity(op.id.clone())),
        Selection::Pair(p) => Some(NavigationTarget::Pair(p.clone())),
        Selection::Nothing => None,
    }
}

/// Restoring a saved selection gives back the selection that was saved,
/// when its pair is valid this session and, for an opportunity, the ledger
/// still holds it (as the first entry with its id).
pub proof fn law_persist_restore_round_trip(
    s: Selection,
    valid_pairs: Seq<String>,
    ledger: Seq<TradeOpportunity>,
)
    requires
        match s {
            Selection::Nothing => valid_pairs.len() == 0,
            Selection::Pair(p) => has_pair(valid_pairs, p@),
            Selection::Opportunity(op) => opportunity_index(ledger, op.id@, 0) matches Some(i)
                && ledger[i] == op,
        },
    ensures
        restore_spec(persisted_spec(s), valid_pairs, Some(ledger)) == s,
{
}

/// Healing a selection twice changes nothing the second time, and once
/// some pair is valid the healed selection names a valid pair.
pub proof fn law_heal_idempotent(s: Selection, valid_pairs: Seq<String>)
    ensures
        healed_selection(healed_selection(s, valid_pairs), valid_pairs) == healed_selection(
            s,
            valid_pairs,
        ),
        valid_pairs.len() > 0 ==> selection_valid(healed_selection(s, valid_pairs), valid_pairs),
{
    if valid_pairs.len() > 0 {
        assert(has_pair(valid_pairs, valid_pairs[0]@));
    }
}

} // verus!
