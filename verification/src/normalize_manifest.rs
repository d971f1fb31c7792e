//! A manifest without its references to the workspace.

use vstd::prelude::*;
use crate::text::same_text;

verus! {

/// A value of a manifest. A value that is neither a table, nor a list,
/// nor a truth value is known by a number only: the caller keeps the value
/// itself and finds it again by that number.
#[derive(Debug, PartialEq, Eq)]
pub enum TomlValue {
    Table(Vec<(String, TomlValue)>),
    Array(Vec<TomlValue>),
    Boolean(bool),
    Scalar(usize),
}

/// A value of a manifest as a mathematical value.
pub enum TomlView {
    Table(Seq<(Seq<char>, TomlView)>),
    Array(Seq<TomlView>),
    Boolean(bool),
    Scalar(int),
}

impl TomlValue {
    /// The value as a mathematical value.
    pub open spec fn spec_view(&self) -> TomlView
        decreases self,
    {
        match self {
            TomlValue::Table(entries) => TomlView::Table(
                Seq::new(
                    entries.len() as nat,
                    |i: int|
                        if 0 <= i < entries.len() {
                            (entries[i].0@, entries[i].1.spec_view())
                        } else {
                            (Seq::empty(), TomlView::Boolean(false))
                        },
                ),
            ),
            TomlValue::Array(items) => TomlView::Array(
                Seq::new(
                    items.len() as nat,
                    |i: int|
                        if 0 <= i < items.len() {
                            items[i].spec_view()
                        } else {
                            TomlView::Boolean(false)
                        },
                ),
            ),
            TomlValue::Boolean(b) => TomlView::Boolean(*b),
            TomlValue::Scalar(n) => TomlView::Scalar(*n as int),
        }
    }
}

impl View for TomlValue {
    type V = TomlView;

    open spec fn view(&self) -> TomlView {
        self.spec_view()
    }
}

/// Whether an entry of a table says that a value is taken from the
/// workspace: the key `workspace` with the value `true`.
pub open spec fn refers_to_workspace(entry: (Seq<char>, TomlView)) -> bool {
    entry.0 == "workspace"@ && entry.1 == TomlView::Boolean(true)
}

/// A value without the entries that refer to the workspace, at any depth.
/// A table that loses all its entries is dropped with its key; a list
/// keeps what is left of its items. Nothing is left of a table all of
/// whose entries go.
pub open spec fn pruned(value: TomlView) -> Option<TomlView>
    decreases value, 0nat,
{
    match value {
        TomlView::Table(entries) => {
            let kept = pruned_entries(entries, entries.len() as int);
            if kept.len() == 0 && entries.len() > 0 {
                None
            } else {
                Some(TomlView::Table(kept))
            }
        },
        TomlView::Array(items) => Some(TomlView::Array(pruned_items(items, items.len() as int))),
        other => Some(other),
    }
}

/// What is left of the first `n` entries of a table.
pub open spec fn pruned_entries(entries: Seq<(Seq<char>, TomlView)>, n: int) -> Seq<(Seq<char>, TomlView)>
    decreases entries, n,
{
    if n <= 0 || n > entries.len() {
        Seq::empty()
    } else {
        let before = pruned_entries(entries, n - 1);
        if refers_to_workspace(entries[n - 1]) {
            before
        } else {
            match pruned(entries[n - 1].1) {
                Some(value) => before.push((entries[n - 1].0, value)),
                None => before,
            }
        }
    }
}

/// What is left of the first `n` items of a list.
pub open spec fn pruned_items(items: Seq<TomlView>, n: int) -> Seq<TomlView>
    decreases items, n,
{
    if n <= 0 || n > items.len() {
        Seq::empty()
    } else {
        match pruned(items[n - 1]) {
            Some(value) => pruned_items(items, n - 1).push(value),
            None => pruned_items(items, n - 1),
        }
    }
}

/// The views of the entries of a table.
pub open spec fn entry_views(entries: Seq<(String, TomlValue)>) -> Seq<(Seq<char>, TomlView)> {
    Seq::new(entries.len(), |i: int| (entries[i].0@, entries[i].1@))
}

/// The views of the items of a list.
pub open spec fn item_views(items: Seq<TomlValue>) -> Seq<TomlView> {
    Seq::new(items.len(), |i: int| items[i]@)
}

/// Whether an entry of a table refers to the workspace.
pub fn is_workspace_reference(key: &str, value: &TomlValue) -> (r: bool)
    ensures
        r == refers_to_workspace((key@, value@)),
{
    let is_true = match value {
        TomlValue::Boolean(b) => *b,
        _ => false,
    };
    same_text(key, "workspace") && is_true
}

/// Takes the references to the workspace out of a value of a manifest.
#[verifier::loop_isolation(false)]
pub fn prune_workspace_references(toml: TomlValue) -> (r: Option<TomlValue>)
    ensures
        r is Some == pruned(toml@) is Some,
        r matches Some(value) ==> Some(value@) == pruned(toml@),
    decreases toml,
{
    match toml {
        TomlValue::Table(map) => {
            let ghost entries = entry_views(map@);
            assert(toml@ matches TomlView::Table(e) && e =~= entries);
            let orig_is_empty = map.len() == 0;
            let mut kept: Vec<(String, TomlValue)> = Vec::new();
            let ghost all = map@;
            let mut at: usize = 0;
            assert(entry_views(kept@) =~= pruned_entries(entries, 0));
            for entry in it: map
                invariant
                    it.seq() == all,
                    at == it.index(),
                    entries == entry_views(all),
                    entry_views(kept@) == pruned_entries(entries, at as int),
            {
                let ghost before = entry_views(kept@);
                assert(entries[at as int] == (all[at as int].0@, all[at as int].1@));
                assert(decreases_to!(toml => entry.1)) by {
                    assert(all[at as int] == entry);
                }
                let (key, value) = entry;
                if !is_workspace_reference(key.as_str(), &value) {
                    match prune_workspace_references(value) {
                        Some(left) => {
                            kept.push((key, left));
                            assert(entry_views(kept@) =~= before.push((key@, left@)));
                        },
                        None => {},
                    }
                }
                at = at + 1;
            }
            if kept.len() == 0 && !orig_is_empty {
                None
            } else {
                let r = TomlValue::Table(kept);
                assert(r@ matches TomlView::Table(e) && e =~= entry_views(kept@));
                Some(r)
            }
        },
        TomlValue::Array(vec) => {
            let ghost items = item_views(vec@);
            assert(toml@ matches TomlView::Array(e) && e =~= items);
            let mut kept: Vec<TomlValue> = Vec::new();
            let ghost all = vec@;
            let mut at: usize = 0;
            assert(item_views(kept@) =~= pruned_items(items, 0));
            for item in it: vec
                invariant
                    it.seq() == all,
                    at == it.index(),
                    items == item_views(all),
                    item_views(kept@) == pruned_items(items, at as int),
            {
                let ghost before = item_views(kept@);
                assert(items[at as int] == all[at as int]@);
                assert(decreases_to!(toml => item)) by {
                    assert(all[at as int] == item);
                }
                match prune_workspace_references(item) {
                    Some(left) => {
                        kept.push(left);
                        assert(item_views(kept@) =~= before.push(left@));
                    },
                    None => {},
                }
                at = at + 1;
            }
            let r = TomlValue::Array(kept);
            assert(r@ matches TomlView::Array(e) && e =~= item_views(kept@));
            Some(r)
        },
        value => Some(value),
    }
}

} // verus!
