//! The collection registry: names of record categories and their ids.

use vstd::prelude::*;
use crate::error::MigrationError;
use crate::records::Bso;
use crate::text::{parse_u16, u16_of};

verus! {

broadcast use vstd::string::group_string_axioms;

/// A named category of records with its numeric id in the destination.
#[derive(Debug)]
pub struct Collection {
    pub name: String,
    pub collection: u16,
    pub last_modified: i64,
}

/// The model of a collection: its name, its id and its modification time.
pub type Entry = (Seq<char>, u16, i64);

impl View for Collection {
    type V = Entry;

    open spec fn view(&self) -> Entry {
        (self.name@, self.collection, self.last_modified)
    }
}

/// Whether no two entries share a name.
pub open spec fn unique_names(e: Seq<Entry>) -> bool {
    forall|i: int, j: int| 0 <= i < e.len() && 0 <= j < e.len() && i != j ==> #[trigger] e[i].0 != #[trigger] e[j].0
}

/// Whether some entry has this name.
pub open spec fn has_name(e: Seq<Entry>, name: Seq<char>) -> bool {
    exists|i: int| 0 <= i < e.len() && #[trigger] e[i].0 == name
}

/// The position of the entry with this name.
pub open spec fn position_of(e: Seq<Entry>, name: Seq<char>) -> int {
    choose|i: int| 0 <= i < e.len() && #[trigger] e[i].0 == name
}

/// The entry with this name, if any.
pub open spec fn lookup(e: Seq<Entry>, name: Seq<char>) -> Option<Entry> {
    if has_name(e, name) {
        Some(e[position_of(e, name)])
    } else {
        None
    }
}

/// `e` with `c` in place of the entry of the same name, or with `c` added
/// at the end where there is none.
pub open spec fn set_entry(e: Seq<Entry>, c: Entry) -> Seq<Entry> {
    if has_name(e, c.0) {
        e.update(position_of(e, c.0), c)
    } else {
        e.push(c)
    }
}

/// The built-in collections and their historically stable ids.
pub open spec fn default_entries() -> Seq<Entry> {
    seq![
        ("clients"@, 1u16, 0i64),
        ("crypto"@, 2u16, 0i64),
        ("forms"@, 3u16, 0i64),
        ("history"@, 4u16, 0i64),
        ("keys"@, 5u16, 0i64),
        ("meta"@, 6u16, 0i64),
        ("bookmarks"@, 7u16, 0i64),
        ("prefs"@, 8u16, 0i64),
        ("tabs"@, 9u16, 0i64),
        ("passwords"@, 10u16, 0i64),
        ("addons"@, 11u16, 0i64),
        ("addresses"@, 12u16, 0i64),
        ("creditcards"@, 13u16, 0i64),
    ]
}

/// Whether `k` is the position of the first row that is not well formed.
pub open spec fn first_bad_row(rows: Seq<Seq<Seq<char>>>, k: int) -> bool {
    0 <= k < rows.len() && !row_ok(rows[k]) && forall|j: int| 0 <= j < k ==> row_ok(#[trigger] rows[j])
}

/// Whether a row of the destination's collection table holds an id that
/// parses and a name.
pub open spec fn row_ok(row: Seq<Seq<char>>) -> bool {
    row.len() >= 2 && u16_of(row[0]) is Some
}

/// The collection that a well-formed row stands for.
pub open spec fn row_entry(row: Seq<Seq<char>>) -> Entry {
    (row[1], u16_of(row[0])->0, 0i64)
}

/// Whether an earlier row carries the name of row `k`.
pub open spec fn seen_before(rows: Seq<Seq<Seq<char>>>, k: int) -> bool {
    exists|j: int| 0 <= j < k && #[trigger] rows[j][1] == rows[k][1]
}

/// The entries after merging the destination's rows over `base`, in order:
/// the first row of each name sets that name's entry, destination ids
/// winning over those of `base`.
pub open spec fn merged(base: Seq<Entry>, rows: Seq<Seq<Seq<char>>>) -> Seq<Entry>
    decreases rows.len(),
{
    if rows.len() == 0 {
        base
    } else {
        let prev = merged(base, rows.drop_last());
        if seen_before(rows, rows.len() - 1) {
            prev
        } else {
            set_entry(prev, row_entry(rows.last()))
        }
    }
}

/// The collection id that a record is written under: that of the
/// registered collection of its name, else the id the record carries.
pub open spec fn resolved_id(e: Seq<Entry>, b: &Bso) -> u16 {
    match lookup(e, b.col_name@) {
        Some(c) => c.1,
        None => b.col_id,
    }
}

/// Whether some row of the destination carries this name.
pub open spec fn row_has_name(rows: Seq<Seq<Seq<char>>>, name: Seq<char>) -> bool {
    exists|k: int| 0 <= k < rows.len() && rows[k].len() >= 2 && #[trigger] rows[k][1] == name
}

/// The entries that no row of the destination names, in registry order.
pub open spec fn missing_entries(e: Seq<Entry>, rows: Seq<Seq<Seq<char>>>) -> Seq<Entry> {
    e.filter(|c: Entry| !row_has_name(rows, c.0))
}

/// Whether every row is well formed.
pub open spec fn all_rows_ok(rows: Seq<Seq<Seq<char>>>) -> bool {
    forall|k: int| 0 <= k < rows.len() ==> row_ok(#[trigger] rows[k])
}

/// The collection registry: an ordered mapping from names to collections.
pub struct Collections {
    items: Vec<Collection>,
}

impl View for Collections {
    type V = Seq<Entry>;

    closed spec fn view(&self) -> Seq<Entry> {
        self.items@.map_values(|c: Collection| c@)
    }
}

fn named(name: &str, id: u16) -> (c: Collection)
    ensures
        c@ == (name@, id, 0i64),
{
    Collection { name: String::from_str(name), collection: id, last_modified: 0 }
}

impl Collections {
    /// Names are unique.
    pub open spec fn wf(&self) -> bool {
        unique_names(self@)
    }

    /// The collections in registry order.
    pub fn items(&self) -> (r: &Vec<Collection>)
        ensures
            r@.map_values(|c: Collection| c@) == self@,
    {
        &self.items
    }

    /// The collection registered under `name`.
    pub fn get(&self, name: &str) -> (r: Option<&Collection>)
        requires
            self.wf(),
        ensures
            match r {
                Some(c) => lookup(self@, name@) == Some(c@),
                None => lookup(self@, name@) is None,
            },
    {
        let key = String::from_str(name);
        let mut i: usize = 0;
        while i < self.items.len()
            invariant
                i <= self.items@.len(),
                key@ == name@,
                self.wf(),
                forall|j: int| 0 <= j < i ==> #[trigger] self@[j].0 != name@,
            decreases self.items@.len() - i,
        {
            assert(self@[i as int] == self.items@[i as int]@);
            if self.items[i].name == key {
                assert(self@[i as int].0 == name@);
                assert(position_of(self@, name@) == i);
                return Some(&self.items[i]);
            }
            i = i + 1;
        }
        None
    }

    /// The collection id that `bso` is written under: that of the
    /// collection registered under its name, else the id it carries.
    pub fn resolve_id(&self, bso: &Bso) -> (r: u16)
        requires
            self.wf(),
        ensures
            r == resolved_id(self@, bso),
            !has_name(self@, bso.col_name@) ==> r == bso.col_id,
    {
        match self.get(bso.col_name.as_str()) {
            Some(c) => c.collection,
            None => bso.col_id,
        }
    }

    /// The collections that no row of the destination's collection table
    /// names: those that the destination still lacks.
    pub fn missing_from(&self, rows: &Vec<Vec<String>>) -> (r: Collections)
        requires
            self.wf(),
        ensures
            r.wf(),
            r@ == missing_entries(self@, rows.deep_view()),
    {
        let ghost dv = rows.deep_view();
        let ghost pred = |c: Entry| !row_has_name(dv, c.0);
        let mut out: Vec<Collection> = Vec::new();
        let mut i: usize = 0;
        while i < self.items.len()
            invariant
                i <= self.items@.len(),
                self.wf(),
                dv == rows.deep_view(),
                pred == (|c: Entry| !row_has_name(dv, c.0)),
                out@.map_values(|c: Collection| c@) == self@.subrange(0, i as int).filter(pred),
                forall|m: int| #![trigger out@[m]] 0 <= m < out@.len() ==> exists|j: int|
                    0 <= j < i && self@[j].0 == out@[m].name@,
                unique_names(out@.map_values(|c: Collection| c@)),
            decreases self.items@.len() - i,
        {
            let c = &self.items[i];
            assert(self@[i as int] == c@);
            let mut named_by_row = false;
            let mut k: usize = 0;
            while k < rows.len()
                invariant
                    k <= rows@.len(),
                    dv == rows.deep_view(),
                    named_by_row <==> exists|j: int| 0 <= j < k && dv[j].len() >= 2 && #[trigger] dv[j][1] == c.name@,
                decreases rows@.len() - k,
            {
                assert(dv[k as int] == rows@[k as int].deep_view());
                if rows[k].len() >= 2 {
                    assert(dv[k as int][1] == rows@[k as int]@[1]@);
                    if rows[k][1] == c.name {
                        named_by_row = true;
                    }
                }
                k = k + 1;
            }
            proof {
                let sub = self@.subrange(0, i + 1);
                assert(sub.drop_last() =~= self@.subrange(0, i as int));
                assert(sub.last() == c@);
                reveal(Seq::filter);
                assert(named_by_row == row_has_name(dv, c@.0));
            }
            if !named_by_row {
                let ghost before = out@.map_values(|c: Collection| c@);
                proof {
                    assert forall|m: int| 0 <= m < before.len() implies before[m].0 != c@.0 by {
                        assert(out@[m]@ == before[m]);
                        let j = choose|j: int| 0 <= j < i && self@[j].0 == out@[m].name@;
                        assert(self@[j].0 != self@[i as int].0);
                    }
                }
                out.push(Collection { name: c.name.clone(), collection: c.collection, last_modified: c.last_modified });
                assert(out@.map_values(|c: Collection| c@) =~= before.push(c@));
                proof {
                    assert forall|m: int| #![trigger out@[m]] 0 <= m < out@.len() implies exists|j: int|
                        0 <= j < i + 1 && self@[j].0 == out@[m].name@ by {
                        if m < out@.len() - 1 {
                            assert(out@[m]@ == before[m]);
                            let j = choose|j: int| 0 <= j < i && self@[j].0 == before[m].0;
                            assert(self@[j].0 == out@[m].name@);
                        } else {
                            assert(self@[i as int].0 == out@[m].name@);
                        }
                    }
                }
            }
            i = i + 1;
        }
        assert(self@.subrange(0, i as int) =~= self@);
        Collections { items: out }
    }

    /// Registers `collection` under its name, replacing the collection that
    /// had that name.
    pub fn set(&mut self, collection: Collection)
        requires
            old(self).wf(),
        ensures
            final(self).wf(),
            final(self)@ == set_entry(old(self)@, collection@),
    {
        let ghost old_view = self@;
        let ghost c = collection@;
        let mut i: usize = 0;
        while i < self.items.len()
            invariant
                i <= self.items@.len(),
                self@ == old_view,
                unique_names(old_view),
                c == collection@,
                old_view == old(self)@,
                forall|j: int| 0 <= j < i ==> #[trigger] old_view[j].0 != collection.name@,
            decreases self.items@.len() - i,
        {
            assert(self@[i as int] == self.items@[i as int]@);
            if self.items[i].name == collection.name {
                assert(old_view[i as int].0 == collection.name@);
                assert(has_name(old_view, collection.name@));
                assert(position_of(old_view, collection.name@) == i);
                self.items.set(i, collection);
                assert(self@ =~= old_view.update(i as int, c));
                assert(self@ == set_entry(old_view, c));
                return;
            }
            i = i + 1;
        }
        self.items.push(collection);
        assert(self@ =~= old_view.push(collection@));
    }

    /// Merges the rows of the destination's collection table (an id and a
    /// name each) over the registry: the first row of each name sets that
    /// name's collection. Where a row is not well formed, nothing changes
    /// and the first such row is reported.
    pub fn merge_rows(&mut self, rows: &Vec<Vec<String>>) -> (r: Result<(), MigrationError>)
        requires
            old(self).wf(),
        ensures
            final(self).wf(),
            match r {
                Ok(()) => all_rows_ok(rows.deep_view()) && final(self)@ == merged(old(self)@, rows.deep_view()),
                Err(MigrationError::InvalidCollectionRow { row }) => first_bad_row(rows.deep_view(), row as int)
                    && final(self)@ == old(self)@,
                Err(_) => false,
            },
    {
        let ghost dv = rows.deep_view();
        let mut k: usize = 0;
        while k < rows.len()
            invariant
                k <= rows@.len(),
                dv == rows.deep_view(),
                self.wf(),
                self@ == old(self)@,
                forall|j: int| 0 <= j < k ==> row_ok(#[trigger] dv[j]),
            decreases rows@.len() - k,
        {
            let row = &rows[k];
            assert(dv[k as int] == row.deep_view());
            if row.len() < 2 {
                return Err(MigrationError::InvalidCollectionRow { row: k });
            }
            assert(dv[k as int][0] == row[0]@);
            if parse_u16(row[0].as_str()).is_none() {
                return Err(MigrationError::InvalidCollectionRow { row: k });
            }
            k = k + 1;
        }
        let ghost base = self@;
        let mut k: usize = 0;
        while k < rows.len()
            invariant
                k <= rows@.len(),
                dv == rows.deep_view(),
                all_rows_ok(dv),
                base == old(self)@,
                self.wf(),
                self@ == merged(base, dv.subrange(0, k as int)),
            decreases rows@.len() - k,
        {
            let row = &rows[k];
            assert(dv[k as int] == row.deep_view());
            assert(row_ok(dv[k as int]));
            let mut seen = false;
            let mut j: usize = 0;
            while j < k
                invariant
                    j <= k < rows@.len(),
                    dv == rows.deep_view(),
                    all_rows_ok(dv),
                    row == rows@[k as int],
                    row@.len() >= 2,
                    seen <==> exists|i: int| 0 <= i < j && #[trigger] dv[i][1] == dv[k as int][1],
                decreases k - j,
            {
                assert(dv[j as int] == rows@[j as int].deep_view());
                assert(row_ok(dv[j as int]));
                assert(dv[k as int][1] == row[1]@);
                assert(dv[j as int][1] == rows@[j as int]@[1]@);
                if rows[j][1] == row[1] {
                    seen = true;
                }
                j = j + 1;
            }
            let ghost prefix = dv.subrange(0, k + 1);
            assert(prefix.drop_last() =~= dv.subrange(0, k as int));
            assert(prefix.last() == dv[k as int]);
            assert(seen_before(prefix, k as int) == seen_before(dv, k as int)) by {
                if seen_before(prefix, k as int) {
                    let i = choose|i: int| 0 <= i < k && #[trigger] prefix[i][1] == prefix[k as int][1];
                    assert(dv[i][1] == dv[k as int][1]);
                }
                if seen_before(dv, k as int) {
                    let i = choose|i: int| 0 <= i < k && #[trigger] dv[i][1] == dv[k as int][1];
                    assert(prefix[i][1] == prefix[k as int][1]);
                }
            }
            if !seen {
                assert(dv[k as int][0] == row[0]@);
                assert(dv[k as int][1] == row[1]@);
                match parse_u16(row[0].as_str()) {
                    Some(id) => {
                        self.set(Collection { name: row[1].clone(), collection: id, last_modified: 0 });
                    },
                    None => {},
                }
            }
            k = k + 1;
        }
        assert(dv.subrange(0, rows@.len() as int) =~= dv);
        Ok(())
    }
}

impl Default for Collections {
    /// The registry of the built-in collections.
    fn default() -> (r: Collections)
        ensures
            r@ == default_entries(),
            r.wf(),
    {
        let mut items: Vec<Collection> = Vec::new();
        items.push(named("clients", 1));
        items.push(named("crypto", 2));
        items.push(named("forms", 3));
        items.push(named("history", 4));
        items.push(named("keys", 5));
        items.push(named("meta", 6));
        items.push(named("bookmarks", 7));
        items.push(named("prefs", 8));
        items.push(named("tabs", 9));
        items.push(named("passwords", 10));
        items.push(named("addons", 11));
        items.push(named("addresses", 12));
        items.push(named("creditcards", 13));
        let r = Collections { items };
        assert(r@ =~= default_entries());
        proof {
            lemma_defaults_unique();
        }
        r
    }
}

proof fn lemma_set_entry(e: Seq<Entry>, c: Entry)
    requires
        unique_names(e),
    ensures
        unique_names(set_entry(e, c)),
        lookup(set_entry(e, c), c.0) == Some(c),
        forall|n: Seq<char>| n != c.0 ==> lookup(set_entry(e, c), n) == lookup(e, n),
{
    let s = set_entry(e, c);
    if has_name(e, c.0) {
        let p = position_of(e, c.0);
        assert(s[p].0 == c.0);
    } else {
        assert(s[e.len() as int].0 == c.0);
    }
    assert(has_name(s, c.0));
    assert forall|n: Seq<char>| n != c.0 implies lookup(s, n) == lookup(e, n) by {
        if has_name(e, n) {
            let q = position_of(e, n);
            assert(s[q].0 == n);
            assert(has_name(s, n));
        }
        if has_name(s, n) {
            let q = position_of(s, n);
            assert(e[q].0 == n);
        }
    }
}

proof fn lemma_set_entry_present(e: Seq<Entry>, c: Entry)
    requires
        lookup(e, c.0) == Some(c),
    ensures
        set_entry(e, c) == e,
{
    assert(set_entry(e, c) =~= e);
}

proof fn lemma_seen_before_prefix(rows: Seq<Seq<Seq<char>>>, k: int)
    requires
        0 <= k < rows.len() - 1,
    ensures
        seen_before(rows.drop_last(), k) == seen_before(rows, k),
{
    let d = rows.drop_last();
    if seen_before(d, k) {
        let j = choose|j: int| 0 <= j < k && #[trigger] d[j][1] == d[k][1];
        assert(rows[j][1] == rows[k][1]);
    }
    if seen_before(rows, k) {
        let j = choose|j: int| 0 <= j < k && #[trigger] rows[j][1] == rows[k][1];
        assert(d[j][1] == d[k][1]);
    }
}

proof fn lemma_merged_unique(base: Seq<Entry>, rows: Seq<Seq<Seq<char>>>)
    requires
        unique_names(base),
    ensures
        unique_names(merged(base, rows)),
    decreases rows.len(),
{
    if rows.len() > 0 {
        lemma_merged_unique(base, rows.drop_last());
        lemma_set_entry(merged(base, rows.drop_last()), row_entry(rows.last()));
    }
}

/// After merging, a name of the destination's rows maps to the collection of
/// the first row that carries it, whatever `base` held under that name.
pub proof fn lemma_destination_wins(base: Seq<Entry>, rows: Seq<Seq<Seq<char>>>, k: int)
    requires
        unique_names(base),
        all_rows_ok(rows),
        0 <= k < rows.len(),
        !seen_before(rows, k),
    ensures
        lookup(merged(base, rows), rows[k][1]) == Some(row_entry(rows[k])),
    decreases rows.len(),
{
    let last = rows.len() - 1;
    let prev = merged(base, rows.drop_last());
    lemma_merged_unique(base, rows.drop_last());
    if k == last {
        lemma_set_entry(prev, row_entry(rows[k]));
    } else {
        lemma_seen_before_prefix(rows, k);
        assert(rows.drop_last()[k] == rows[k]);
        lemma_destination_wins(base, rows.drop_last(), k);
        if !seen_before(rows, last) {
            assert(rows[last][1] != rows[k][1]);
            lemma_set_entry(prev, row_entry(rows[last]));
        }
    }
}

/// Merging keeps the collection of every name that no row carries.
pub proof fn lemma_others_kept(base: Seq<Entry>, rows: Seq<Seq<Seq<char>>>, name: Seq<char>)
    requires
        unique_names(base),
        all_rows_ok(rows),
        forall|k: int| 0 <= k < rows.len() ==> #[trigger] rows[k][1] != name,
    ensures
        lookup(merged(base, rows), name) == lookup(base, name),
    decreases rows.len(),
{
    if rows.len() > 0 {
        let d = rows.drop_last();
        assert forall|k: int| 0 <= k < d.len() implies #[trigger] d[k][1] != name by {
            assert(d[k] == rows[k]);
        }
        lemma_others_kept(base, d, name);
        lemma_merged_unique(base, d);
        assert(rows.last()[1] != name);
        lemma_set_entry(merged(base, d), row_entry(rows.last()));
    }
}

proof fn lemma_merge_settled(r: Seq<Entry>, rows: Seq<Seq<Seq<char>>>)
    requires
        forall|k: int| 0 <= k < rows.len() && !seen_before(rows, k) ==> lookup(r, #[trigger] rows[k][1]) == Some(
            row_entry(rows[k]),
        ),
    ensures
        merged(r, rows) == r,
    decreases rows.len(),
{
    if rows.len() > 0 {
        let d = rows.drop_last();
        let last = rows.len() - 1;
        assert forall|k: int| 0 <= k < d.len() && !seen_before(d, k) implies lookup(r, #[trigger] d[k][1]) == Some(
            row_entry(d[k]),
        ) by {
            lemma_seen_before_prefix(rows, k);
            assert(d[k] == rows[k]);
        }
        lemma_merge_settled(r, d);
        if !seen_before(rows, last) {
            assert(lookup(r, rows[last][1]) == Some(row_entry(rows[last])));
            lemma_set_entry_present(r, row_entry(rows.last()));
        }
    }
}

/// Merging the same rows a second time changes nothing.
pub proof fn lemma_merge_idempotent(base: Seq<Entry>, rows: Seq<Seq<Seq<char>>>)
    requires
        unique_names(base),
        all_rows_ok(rows),
    ensures
        merged(merged(base, rows), rows) == merged(base, rows),
{
    let m = merged(base, rows);
    assert forall|k: int| 0 <= k < rows.len() && !seen_before(rows, k) implies lookup(m, #[trigger] rows[k][1])
        == Some(row_entry(rows[k])) by {
        lemma_destination_wins(base, rows, k);
    }
    lemma_merge_settled(m, rows);
}

proof fn lemma_defaults_unique()
    ensures
        unique_names(default_entries()),
{
    reveal_strlit("clients");
    reveal_strlit("crypto");
    reveal_strlit("forms");
    reveal_strlit("history");
    reveal_strlit("keys");
    reveal_strlit("meta");
    reveal_strlit("bookmarks");
    reveal_strlit("prefs");
    reveal_strlit("tabs");
    reveal_strlit("passwords");
    reveal_strlit("addons");
    reveal_strlit("addresses");
    reveal_strlit("creditcards");
    let e = default_entries();
    assert forall|i: int, j: int| 0 <= i < e.len() && 0 <= j < e.len() && i != j implies #[trigger] e[i].0
        != #[trigger] e[j].0 by {
        if e[i].0 == e[j].0 {
            assert(e[i].0.len() == e[j].0.len());
            assert(e[i].0[0] == e[j].0[0]);
            assert(e[i].0[1] == e[j].0[1]);
            assert(e[i].0[e[i].0.len() - 1] == e[j].0[e[j].0.len() - 1]);
        }
    }
}

} // verus!
