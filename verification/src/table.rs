//! The table that joins the name of an item type with its identifier, both
//! ways. It is made once from the rows of a reference dataset and only read
//! afterwards.

use std::collections::HashMap;
use vstd::hash_map::StringHashMap;
use vstd::prelude::*;

verus! {

broadcast use vstd::std_specs::hash::group_hash_axioms;

/// A row as contracts see it.
pub struct TypeRowView {
    pub type_id: u64,
    pub name: Seq<char>,
}

/// One row of the reference dataset: a type identifier and the name of the
/// type.
#[derive(Debug, PartialEq)]
pub struct TypeRow {
    pub type_id: u64,
    pub name: String,
}

impl View for TypeRow {
    type V = TypeRowView;

    open spec fn view(&self) -> TypeRowView {
        TypeRowView { type_id: self.type_id, name: self.name@ }
    }
}

impl DeepView for TypeRow {
    type V = TypeRowView;

    open spec fn deep_view(&self) -> TypeRowView {
        self@
    }
}

/// The identifier of each name in `rows`. Where several rows share a name,
/// the highest of their identifiers stands.
pub open spec fn name_ids(rows: Seq<TypeRowView>) -> Map<Seq<char>, u64>
    decreases rows.len(),
{
    if rows.len() == 0 {
        Map::empty()
    } else {
        let before = name_ids(rows.drop_last());
        let row = rows.last();
        if before.contains_key(row.name) && before[row.name] >= row.type_id {
            before
        } else {
            before.insert(row.name, row.type_id)
        }
    }
}

/// No two names have the same identifier.
pub open spec fn one_name_per_id(ids: Map<Seq<char>, u64>) -> bool {
    forall|a: Seq<char>, b: Seq<char>|
        ids.contains_key(a) && ids.contains_key(b) && #[trigger] ids[a] == #[trigger] ids[b] ==> a
            == b
}

/// The names that `rows` hold are those that `name_ids` knows, and the
/// identifier of a name is that of one of its rows and the highest among
/// them.
pub proof fn lemma_highest_id_wins(rows: Seq<TypeRowView>, name: Seq<char>)
    ensures
        name_ids(rows).contains_key(name) <==> exists|j: int|
            0 <= j < rows.len() && (#[trigger] rows[j]).name == name,
        name_ids(rows).contains_key(name) ==> exists|j: int|
            0 <= j < rows.len() && #[trigger] rows[j] == (TypeRowView {
                type_id: name_ids(rows)[name],
                name,
            }),
        forall|j: int|
            0 <= j < rows.len() && (#[trigger] rows[j]).name == name ==> rows[j].type_id
                <= name_ids(rows)[name],
    decreases rows.len(),
{
    if rows.len() > 0 {
        let before = rows.drop_last();
        let last = rows.len() - 1;
        lemma_highest_id_wins(before, name);
        assert forall|j: int| 0 <= j < before.len() implies #[trigger] before[j] == rows[j] by {}
        if name_ids(before).contains_key(name) {
            let j = choose|j: int|
                0 <= j < before.len() && #[trigger] before[j] == (TypeRowView {
                    type_id: name_ids(before)[name],
                    name,
                });
            assert(rows[j] == before[j]);
        }
        if name_ids(rows).contains_key(name) {
            if rows[last].name == name && name_ids(rows)[name] == rows[last].type_id {
                assert(rows[last] == (TypeRowView { type_id: name_ids(rows)[name], name }));
            } else {
                let j = choose|j: int|
                    0 <= j < before.len() && #[trigger] before[j] == (TypeRowView {
                        type_id: name_ids(before)[name],
                        name,
                    });
                assert(rows[j] == (TypeRowView { type_id: name_ids(rows)[name], name }));
            }
        }
        if exists|j: int| 0 <= j < rows.len() && (#[trigger] rows[j]).name == name {
            let j = choose|j: int| 0 <= j < rows.len() && (#[trigger] rows[j]).name == name;
            if j < last {
                assert(before[j].name == name);
            }
        }
        assert forall|j: int| 0 <= j < rows.len() && (#[trigger] rows[j]).name
            == name implies rows[j].type_id <= name_ids(rows)[name] by {
            if j < last {
                assert(before[j].name == name);
            }
        }
    }
}

/// The lookup table between the names of item types and their identifiers.
pub struct TypeTable {
    by_name: StringHashMap<u64>,
    by_id: HashMap<u64, String>,
}

impl TypeTable {
    /// The identifier of each name in the table.
    pub closed spec fn ids(&self) -> Map<Seq<char>, u64> {
        self.by_name@
    }

    /// The name of each identifier in the table.
    pub closed spec fn names(&self) -> Map<u64, Seq<char>> {
        Map::new(|id: u64| self.by_id@.contains_key(id), |id: u64| self.by_id@[id]@)
    }

    /// The two directions of the table agree: each is the inverse of the
    /// other.
    pub closed spec fn wf(&self) -> bool {
        &&& forall|name: Seq<char>| #[trigger]
            self.by_name@.contains_key(name) ==> self.by_id@.contains_key(self.by_name@[name])
                && self.by_id@[self.by_name@[name]]@ == name
        &&& forall|id: u64| #[trigger]
            self.by_id@.contains_key(id) ==> self.by_name@.contains_key(self.by_id@[id]@)
                && self.by_name@[self.by_id@[id]@] == id
    }

    /// From a name to its identifier and back gives the name; from an
    /// identifier to its name and back gives the identifier.
    pub proof fn lemma_round_trip(&self)
        requires
            self.wf(),
        ensures
            forall|name: Seq<char>| #[trigger]
                self.ids().contains_key(name) ==> self.names().contains_key(self.ids()[name])
                    && self.names()[self.ids()[name]] == name,
            forall|id: u64| #[trigger]
                self.names().contains_key(id) ==> self.ids().contains_key(self.names()[id])
                    && self.ids()[self.names()[id]] == id,
            one_name_per_id(self.ids()),
    {
        assert forall|a: Seq<char>, b: Seq<char>|
            self.ids().contains_key(a) && self.ids().contains_key(b) && #[trigger] self.ids()[a]
                == #[trigger] self.ids()[b] implies a == b by {
            assert(self.by_name@.contains_key(a));
            assert(self.by_name@.contains_key(b));
        }
    }

    /// The table of `rows`. Where several rows share a name, the highest
    /// of their identifiers stands for the name. There is no table where
    /// two names would then have the same identifier.
    pub fn from_rows(rows: &Vec<TypeRow>) -> (r: Option<TypeTable>)
        ensures
            match r {
                Some(table) => table.wf() && table.ids() == name_ids(rows.deep_view())
                    && one_name_per_id(name_ids(rows.deep_view())),
                None => !one_name_per_id(name_ids(rows.deep_view())),
            },
    {
        let ghost all = rows.deep_view();
        let mut by_name: StringHashMap<u64> = StringHashMap::new();
        let mut i: usize = 0;
        proof {
            assert(all.take(0) == Seq::<TypeRowView>::empty());
        }
        while i < rows.len()
            invariant
                i <= rows.len(),
                all == rows.deep_view(),
                by_name@ == name_ids(all.take(i as int)),
            decreases rows.len() - i,
        {
            let row = &rows[i];
            proof {
                assert(all.take(i as int + 1).drop_last() == all.take(i as int));
                assert(all.take(i as int + 1).last() == row@);
            }
            let known = match by_name.get(row.name.as_str()) {
                Some(id) => *id >= row.type_id,
                None => false,
            };
            if !known {
                by_name.insert(row.name.clone(), row.type_id);
            }
            i += 1;
        }
        proof {
            assert(all.take(i as int) == all);
        }
        let ghost ids = name_ids(all);
        let mut by_id: HashMap<u64, String> = HashMap::new();
        let mut k: usize = 0;
        while k < rows.len()
            invariant
                k <= rows.len(),
                all == rows.deep_view(),
                ids == name_ids(all),
                by_name@ == ids,
                forall|id: u64| #[trigger]
                    by_id@.contains_key(id) ==> ids.contains_key(by_id@[id]@) && ids[by_id@[id]@]
                        == id,
                forall|j: int|
                    0 <= j < k && ids[(#[trigger] all[j]).name] == all[j].type_id
                        ==> by_id@.contains_key(all[j].type_id) && by_id@[all[j].type_id]@
                        == all[j].name,
            decreases rows.len() - k,
        {
            let row = &rows[k];
            proof {
                assert(all[k as int] == row@);
                lemma_highest_id_wins(all, row.name@);
            }
            let wins = match by_name.get(row.name.as_str()) {
                Some(id) => *id == row.type_id,
                None => false,
            };
            if wins {
                match by_id.get(&row.type_id) {
                    Some(other) => {
                        if !(*other == row.name) {
                            proof {
                                assert(ids.contains_key(other@));
                                assert(ids.contains_key(row.name@));
                                assert(ids[other@] == ids[row.name@]);
                            }
                            return None;
                        }
                    },
                    None => {
                        by_id.insert(row.type_id, row.name.clone());
                    },
                }
            }
            k += 1;
        }
        let table = TypeTable { by_name, by_id };
        proof {
            assert forall|name: Seq<char>| #[trigger]
                table.by_name@.contains_key(name) implies table.by_id@.contains_key(
                table.by_name@[name],
            ) && table.by_id@[table.by_name@[name]]@ == name by {
                lemma_highest_id_wins(all, name);
                let j = choose|j: int|
                    0 <= j < all.len() && #[trigger] all[j] == (TypeRowView {
                        type_id: ids[name],
                        name,
                    });
                assert(ids[all[j].name] == all[j].type_id);
            }
            assert(table.wf());
            table.lemma_round_trip();
        }
        Some(table)
    }

    /// How many names the table holds.
    pub fn len(&self) -> (n: usize)
        ensures
            n == self.ids().len(),
    {
        self.by_name.len()
    }
}

/// The name of the type with identifier `id`, if the table knows it.
pub fn lookup_id(table: &TypeTable, id: u64) -> (r: Option<String>)
    ensures
        match r {
            Some(name) => table.names().contains_key(id) && name@ == table.names()[id],
            None => !table.names().contains_key(id),
        },
{
    match table.by_id.get(&id) {
        Some(s) => Some(s.clone()),
        None => None,
    }
}

/// The identifier of the type named `name`, if the table knows it.
pub fn lookup_type_name(table: &TypeTable, name: String) -> (r: Option<u64>)
    ensures
        match r {
            Some(id) => table.ids().contains_key(name@) && id == table.ids()[name@],
            None => !table.ids().contains_key(name@),
        },
{
    match table.by_name.get(name.as_str()) {
        Some(id) => Some(*id),
        None => None,
    }
}

} // verus!
