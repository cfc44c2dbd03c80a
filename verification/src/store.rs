//! Store-level operations: admitting a store read from disk, stamping one
//! about to be written, the lookups, the id sets, and the backfill report.
use vstd::prelude::*;
use crate::changelog::with_audit_cloned;
use crate::error::AtomicStoreError;
use crate::generations::CURRENT_SCHEMA_VERSION;
use crate::model::{
    AtomicChangelogEntry, AtomicSection, AtomicStore, BindingKind, InventoryEntry, clone_opt, strs,
};
use crate::order::{
    compare_str, insert_sorted, lemma_lex_asymmetric, lemma_lex_irreflexive, lemma_lex_total,
    lemma_lex_transitive, lex_lt, sorted_strict, str_views,
};
use crate::report::{lemma_opt_order, opt_lt};
use crate::text::owned;

verus! {

/// One section whose excerpt hash is empty: its text is not yet
/// revalidatable against an EPUB.
#[derive(Debug, Clone, PartialEq, Eq)]
pub struct ExcerptHashBackfillRow {
    pub section_id: String,
    pub source_revision: String,
}

/// The excerpt-hash backfill work list, in section order.
#[derive(Debug, Clone, PartialEq, Eq)]
pub struct ExcerptHashBackfillReport {
    pub rows: Vec<ExcerptHashBackfillRow>,
}

/// The backfill rows of the first `n` sections: one per section whose
/// excerpt is present with an empty hash.
pub open spec fn backfill_rows(ks: Seq<Seq<char>>, vs: Seq<AtomicSection>, n: int) -> Seq<
    (Seq<char>, Seq<char>),
>
    decreases n,
{
    if n <= 0 {
        Seq::empty()
    } else {
        backfill_rows(ks, vs, n - 1) + match vs[n - 1].normative_excerpt {
            Some(ne) => if ne.text_sha256@.len() == 0 {
                seq![(ks[n - 1], ne.source_revision@)]
            } else {
                Seq::empty()
            },
            None => Seq::empty(),
        }
    }
}

/// `y` is the text of `s` before its `/` at position `t`.
pub open spec fn slash_prefix(s: Seq<char>, t: int, y: Seq<char>) -> bool {
    0 <= t < s.len() && s[t] == '/' && y == s.subrange(0, t)
}

/// `y` is `s` or the text before one of its `/`.
pub open spec fn id_or_parent(s: Seq<char>, y: Seq<char>) -> bool {
    s == y || exists|t: int| #[trigger] slash_prefix(s, t, y)
}

/// Whether `y` is a section id or a parent prefix of one: the text before
/// some `/` of a section id.
pub open spec fn implied_section_id(ks: Seq<Seq<char>>, y: Seq<char>) -> bool {
    exists|i: int| 0 <= i < ks.len() && #[trigger] id_or_parent(ks[i], y)
}

/// One binding that inherited `kind = Implements` from a store written
/// before bindings had a kind.
#[derive(Debug, Clone, PartialEq, Eq)]
pub struct KindMigrationRow {
    pub section_id: String,
    pub file: String,
    pub symbol: Option<String>,
    pub defaulted_kind: BindingKind,
}

/// The kind-migration work list of a store loaded from before bindings had
/// a kind.
#[derive(Debug, Clone, PartialEq, Eq)]
pub struct KindMigrationReport {
    /// The on-disk schema generation the store was loaded from.
    pub from_schema_version: u32,
    pub rows: Vec<KindMigrationRow>,
}

/// A row by value: section, file, symbol, kind.
pub open spec fn row_view(r: KindMigrationRow) -> (Seq<char>, Seq<char>, Option<Seq<char>>, BindingKind) {
    (r.section_id@, r.file@, r.symbol.deep_view(), r.defaulted_kind)
}

/// Rows by value, in order.
pub open spec fn row_views(s: Seq<KindMigrationRow>) -> Seq<
    (Seq<char>, Seq<char>, Option<Seq<char>>, BindingKind),
> {
    s.map_values(|r: KindMigrationRow| row_view(r))
}

/// The rows of the bindings of the first `n` sections, section by section,
/// each section's bindings in stored order.
pub open spec fn binding_rows(ks: Seq<Seq<char>>, vs: Seq<AtomicSection>, n: int) -> Seq<
    (Seq<char>, Seq<char>, Option<Seq<char>>, BindingKind),
>
    decreases n,
{
    if n <= 0 {
        Seq::empty()
    } else {
        binding_rows(ks, vs, n - 1) + section_rows(ks[n - 1], vs[n - 1].bindings.deep_view())
    }
}

/// The rows of one section's bindings, in stored order.
pub open spec fn section_rows(sid: Seq<char>, bs: Seq<(Seq<char>, Option<Seq<char>>, BindingKind)>) -> Seq<
    (Seq<char>, Seq<char>, Option<Seq<char>>, BindingKind),
> {
    bs.map_values(|b: (Seq<char>, Option<Seq<char>>, BindingKind)| (sid, b.0, b.1, b.2))
}

/// The order of rows: by section, then file, then symbol (`None` first).
pub open spec fn row_lt(
    a: (Seq<char>, Seq<char>, Option<Seq<char>>, BindingKind),
    b: (Seq<char>, Seq<char>, Option<Seq<char>>, BindingKind),
) -> bool {
    lex_lt(a.0, b.0) || (a.0 == b.0 && (lex_lt(a.1, b.1) || (a.1 == b.1 && opt_lt(a.2, b.2))))
}

/// The sort key of a row.
pub open spec fn row_key(a: (Seq<char>, Seq<char>, Option<Seq<char>>, BindingKind)) -> (
    Seq<char>,
    Seq<char>,
    Option<Seq<char>>,
) {
    (a.0, a.1, a.2)
}

/// No row comes after one it should precede.
pub open spec fn rows_sorted(s: Seq<(Seq<char>, Seq<char>, Option<Seq<char>>, BindingKind)>) -> bool {
    forall|i: int, j: int| 0 <= i < j < s.len() ==> !row_lt(#[trigger] s[j], #[trigger] s[i])
}

/// The rows of `s` with sort key `k`, in order.
pub open spec fn rows_with_key(
    s: Seq<(Seq<char>, Seq<char>, Option<Seq<char>>, BindingKind)>,
    k: (Seq<char>, Seq<char>, Option<Seq<char>>),
) -> Seq<(Seq<char>, Seq<char>, Option<Seq<char>>, BindingKind)>
    decreases s.len(),
{
    if s.len() == 0 {
        Seq::empty()
    } else {
        rows_with_key(s.drop_last(), k) + if row_key(s.last()) == k {
            seq![s.last()]
        } else {
            Seq::empty()
        }
    }
}

proof fn lemma_row_order(
    a: (Seq<char>, Seq<char>, Option<Seq<char>>, BindingKind),
    b: (Seq<char>, Seq<char>, Option<Seq<char>>, BindingKind),
    c: (Seq<char>, Seq<char>, Option<Seq<char>>, BindingKind),
)
    ensures
        !row_lt(a, a),
        row_lt(a, b) && row_lt(b, c) ==> row_lt(a, c),
        row_key(a) != row_key(b) ==> row_lt(a, b) || row_lt(b, a),
        row_lt(a, b) ==> !row_lt(b, a) && row_key(a) != row_key(b),
        row_key(a) == row_key(b) ==> !row_lt(a, b),
        row_key(a) == row_key(b) ==> (row_lt(a, c) == row_lt(b, c) && row_lt(c, a) == row_lt(c, b)),
{
    lemma_lex_irreflexive(a.0);
    lemma_lex_irreflexive(a.1);
    lemma_lex_total(a.0, b.0);
    lemma_lex_total(a.1, b.1);
    lemma_lex_asymmetric(a.0, b.0);
    lemma_lex_asymmetric(a.1, b.1);
    lemma_opt_order(a.2, b.2, c.2);
    if lex_lt(a.0, b.0) && lex_lt(b.0, c.0) {
        lemma_lex_transitive(a.0, b.0, c.0);
    }
    if lex_lt(a.1, b.1) && lex_lt(b.1, c.1) {
        lemma_lex_transitive(a.1, b.1, c.1);
    }
}

/// Inserting a row whose key is not `k` leaves the rows with key `k` as they
/// were; inserting one whose key is `k` before no row with key `k` appends
/// it to them.
proof fn lemma_rows_with_key_insert(
    s: Seq<(Seq<char>, Seq<char>, Option<Seq<char>>, BindingKind)>,
    p: int,
    x: (Seq<char>, Seq<char>, Option<Seq<char>>, BindingKind),
    k: (Seq<char>, Seq<char>, Option<Seq<char>>),
)
    requires
        0 <= p <= s.len(),
        row_key(x) == k ==> forall|i: int| p <= i < s.len() ==> row_key(#[trigger] s[i]) != k,
    ensures
        rows_with_key(s.insert(p, x), k) == if row_key(x) == k {
            rows_with_key(s, k).push(x)
        } else {
            rows_with_key(s, k)
        },
    decreases s.len(),
{
    if p == s.len() {
        assert(s.insert(p, x).drop_last() =~= s);
    } else {
        let t = s.drop_last();
        lemma_rows_with_key_insert(t, p, x, k);
        assert(s.insert(p, x).drop_last() =~= t.insert(p, x));
        assert(s.insert(p, x).last() == s.last());
        if row_key(x) == k {
            assert(row_key(s[s.len() - 1]) != k);
        }
    }
}

/// The rows with key `k` of `s` followed by one more row.
proof fn lemma_rows_with_key_push(
    s: Seq<(Seq<char>, Seq<char>, Option<Seq<char>>, BindingKind)>,
    x: (Seq<char>, Seq<char>, Option<Seq<char>>, BindingKind),
    k: (Seq<char>, Seq<char>, Option<Seq<char>>),
)
    ensures
        rows_with_key(s.push(x), k) == if row_key(x) == k {
            rows_with_key(s, k).push(x)
        } else {
            rows_with_key(s, k)
        },
{
    assert(s.push(x).drop_last() =~= s);
}

fn row_less(a: &KindMigrationRow, b: &KindMigrationRow) -> (r: bool)
    ensures
        r == row_lt(row_view(*a), row_view(*b)),
{
    let c = compare_str(a.section_id.as_str(), b.section_id.as_str());
    if c != 0 {
        return c < 0;
    }
    let d = compare_str(a.file.as_str(), b.file.as_str());
    if d != 0 {
        return d < 0;
    }
    match &a.symbol {
        None => b.symbol.is_some(),
        Some(x) => match &b.symbol {
            None => false,
            Some(y) => compare_str(x.as_str(), y.as_str()) < 0,
        },
    }
}

/// Insert `x` after every row that does not come after it.
fn insert_row(rows: &mut Vec<KindMigrationRow>, x: KindMigrationRow)
    requires
        rows_sorted(row_views(old(rows)@)),
    ensures
        rows_sorted(row_views(final(rows)@)),
        forall|k: (Seq<char>, Seq<char>, Option<Seq<char>>)|
            #[trigger] rows_with_key(row_views(final(rows)@), k)
                == if row_key(row_view(x)) == k {
                rows_with_key(row_views(old(rows)@), k).push(
                    row_view(x),
                )
            } else {
                rows_with_key(row_views(old(rows)@), k)
            },
{
    let ghost s = row_views(rows@);
    let ghost xv = row_view(x);
    let n = rows.len();
    let mut p: usize = 0;
    while p < n
        invariant
            p <= n,
            n == rows.len(),
            s == row_views(rows@),
            xv == row_view(x),
            forall|i: int| 0 <= i < p ==> !row_lt(xv, #[trigger] s[i]),
        ensures
            p <= n,
            forall|i: int| 0 <= i < p ==> !row_lt(xv, #[trigger] s[i]),
            p < n ==> row_lt(xv, s[p as int]),
        decreases n - p,
    {
        let lt = row_less(&x, &rows[p]);
        assert(s[p as int] == row_view(rows@[p as int]));
        if lt {
            break;
        }
        p = p + 1;
    }
    rows.insert(p, x);
    proof {
        let t = row_views(rows@);
        assert(t =~= s.insert(p as int, xv));
        assert forall|i: int| p <= i < n implies row_lt(xv, #[trigger] s[i]) by {
            if i > p {
                assert(!row_lt(s[i], s[p as int]));
                lemma_row_order(xv, s[p as int], s[i]);
                lemma_row_order(s[p as int], s[i], xv);
                if row_key(s[p as int]) != row_key(s[i]) {
                    lemma_row_order(s[i], s[p as int], xv);
                }
            }
        }
        assert forall|a: int, b: int| 0 <= a < b < t.len() implies !row_lt(
            #[trigger] t[b],
            #[trigger] t[a],
        ) by {
            if b < p {
                assert(t[a] == s[a] && t[b] == s[b]);
            } else if b == p {
                assert(t[a] == s[a] && t[b] == xv);
                lemma_row_order(xv, s[a], xv);
                if row_key(xv) != row_key(s[a]) {
                    lemma_row_order(s[a], xv, xv);
                }
            } else if a == p {
                assert(t[b] == s[b - 1]);
                lemma_row_order(xv, s[b - 1], xv);
            } else if a < p {
                assert(t[a] == s[a] && t[b] == s[b - 1]);
            } else {
                assert(t[a] == s[a - 1] && t[b] == s[b - 1]);
            }
        }
        assert forall|k: (Seq<char>, Seq<char>, Option<Seq<char>>)|
            #[trigger] rows_with_key(t, k) == if row_key(xv) == k {
                rows_with_key(s, k).push(xv)
            } else {
                rows_with_key(s, k)
            } by {
            if row_key(xv) == k {
                assert forall|i: int| p <= i < s.len() implies row_key(#[trigger] s[i]) != k by {
                    lemma_row_order(xv, s[i], xv);
                }
            }
            lemma_rows_with_key_insert(s, p as int, xv, k);
        }
    }
}

impl AtomicStore {
    /// The kind-migration work list: `None` once the store is at a
    /// generation whose bindings carry a kind; otherwise every binding as a
    /// row, sorted by section, file and symbol, rows with the same key in
    /// stored order.
    pub fn kind_migration_report(&self) -> (r: Option<KindMigrationReport>)
        ensures
            match r {
                None => self.schema_version >= 5,
                Some(rep) => {
                    let all = binding_rows(
                        self.sections.key_seq(),
                        self.sections.val_seq(),
                        self.sections.size() as int,
                    );
                    let rows = row_views(rep.rows@);
                    &&& self.schema_version < 5
                    &&& rep.from_schema_version == self.schema_version
                    &&& rows_sorted(rows)
                    &&& forall|k: (Seq<char>, Seq<char>, Option<Seq<char>>)|
                        #[trigger] rows_with_key(rows, k) == rows_with_key(all, k)
                },
            },
    {
        self.establish_wf();
        if self.schema_version >= 5 {
            return None;
        }
        let ghost ks = self.sections.key_seq();
        let ghost vs = self.sections.val_seq();
        let n = self.sections.len();
        let mut rows: Vec<KindMigrationRow> = Vec::new();
        let mut i: usize = 0;
        while i < n
            invariant
                self.wf(),
                ks == self.sections.key_seq(),
                vs == self.sections.val_seq(),
                n == self.sections.size(),
                i <= n,
                rows_sorted(row_views(rows@)),
                forall|k: (Seq<char>, Seq<char>, Option<Seq<char>>)|
                    #[trigger] rows_with_key(row_views(rows@), k)
                        == rows_with_key(binding_rows(ks, vs, i as int), k),
            decreases n - i,
        {
            let sid = self.sections.key_at(i);
            let sec = self.sections.val_at(i);
            let ghost base = binding_rows(ks, vs, i as int);
            let mut j: usize = 0;
            while j < sec.bindings.len()
                invariant
                    j <= sec.bindings.len(),
                    rows_sorted(row_views(rows@)),
                    forall|k: (Seq<char>, Seq<char>, Option<Seq<char>>)|
                        #[trigger] rows_with_key(row_views(rows@), k) == rows_with_key(
                            base + section_rows(sid@, sec.bindings.deep_view().subrange(0, j as int)),
                            k,
                        ),
                decreases sec.bindings.len() - j,
            {
                let b = &sec.bindings[j];
                let row = KindMigrationRow {
                    section_id: owned(sid.as_str()),
                    file: owned(b.file.as_str()),
                    symbol: clone_opt(&b.symbol),
                    defaulted_kind: b.kind,
                };
                let ghost xv = row_view(row);
                proof {
                    let bs = sec.bindings.deep_view();
                    assert(bs[j as int] == b.deep_view());
                    let pre = base + section_rows(sid@, bs.subrange(0, j as int));
                    assert(base + section_rows(sid@, bs.subrange(0, j + 1)) =~= pre.push(xv));
                    assert forall|k: (Seq<char>, Seq<char>, Option<Seq<char>>)|
                        #[trigger] rows_with_key(pre.push(xv), k) == if row_key(xv) == k {
                            rows_with_key(pre, k).push(xv)
                        } else {
                            rows_with_key(pre, k)
                        } by {
                        lemma_rows_with_key_push(pre, xv, k);
                    }
                }
                insert_row(&mut rows, row);
                j = j + 1;
            }
            proof {
                assert(sec.bindings.deep_view().subrange(0, sec.bindings.len() as int)
                    =~= sec.bindings.deep_view());
                assert(*sec == vs[i as int]);
                assert(sid@ == ks[i as int]);
                assert(binding_rows(ks, vs, i + 1) =~= base + section_rows(sid@, sec.bindings.deep_view()));
            }
            i = i + 1;
        }
        Some(KindMigrationReport { from_schema_version: self.schema_version, rows })
    }
}

impl AtomicStore {
    /// Admit a store just read from disk: one written by a newer build is
    /// refused; a store from before the publishable/audit split gets each
    /// entry's publishable half as a copy of its audit half.
    pub fn migrate_on_load(&mut self) -> (r: Result<(), AtomicStoreError>)
        ensures
            final(self).wf(),
            match r {
                Err(e) => {
                    &&& old(self).schema_version > CURRENT_SCHEMA_VERSION
                    &&& e == AtomicStoreError::SchemaVersionMismatch {
                        store: old(self).schema_version,
                        expected: CURRENT_SCHEMA_VERSION,
                    }
                    &&& *final(self) == *old(self)
                },
                Ok(()) => {
                    &&& old(self).schema_version <= CURRENT_SCHEMA_VERSION
                    &&& if old(self).schema_version < 4 {
                        &&& final(self).changelog_entries@.dom() == old(self).changelog_entries@.dom()
                        &&& forall|k: Seq<char>|
                            #[trigger] old(self).changelog_entries@.contains_key(k) ==> final(self).entries_v()[k]
                                == with_audit_cloned(old(self).entries_v()[k])
                        &&& final(self).same_but_entries(*old(self))
                    } else {
                        *final(self) == *old(self)
                    }
                },
            },
    {
        self.establish_wf();
        if self.schema_version > CURRENT_SCHEMA_VERSION {
            return Err(
                AtomicStoreError::SchemaVersionMismatch {
                    store: self.schema_version,
                    expected: CURRENT_SCHEMA_VERSION,
                },
            );
        }
        if self.schema_version < 4 {
            let ghost orig = *self;
            proof {
                orig.changelog_entries.lemma_wf();
            }
            let n = self.changelog_entries.len();
            let mut i: usize = 0;
            while i < n
                invariant
                    self.wf(),
                    orig.wf(),
                    n == orig.changelog_entries.size(),
                    i <= n,
                    self.same_but_entries(orig),
                    self.changelog_entries.key_seq() == orig.changelog_entries.key_seq(),
                    forall|j: int|
                        0 <= j < i ==> (#[trigger] self.changelog_entries.val_seq()[j]).deep_view()
                            == with_audit_cloned(orig.changelog_entries.val_seq()[j].deep_view()),
                    forall|j: int|
                        i <= j < n ==> #[trigger] self.changelog_entries.val_seq()[j]
                            == orig.changelog_entries.val_seq()[j],
                decreases n - i,
            {
                proof {
                    self.changelog_entries.lemma_wf();
                }
                let mut e = crate::model::clone_entry(self.changelog_entries.val_at(i));
                e.clone_audit_into_publishable();
                self.changelog_entries.set_val_at(i, e);
                i = i + 1;
            }
            proof {
                self.changelog_entries.lemma_wf();
                orig.changelog_entries.lemma_wf();
                assert forall|k: Seq<char>|
                    #[trigger] orig.changelog_entries@.contains_key(k) implies self.entries_v()[k]
                        == with_audit_cloned(orig.entries_v()[k]) by {
                    let j = choose|j: int|
                        0 <= j < orig.changelog_entries.size() && orig.changelog_entries.key_seq()[j]
                            == k;
                    assert(self.changelog_entries.key_seq()[j] == k);
                    assert(self.changelog_entries.val_seq()[j].deep_view() == with_audit_cloned(
                        orig.changelog_entries.val_seq()[j].deep_view(),
                    ));
                }
                assert(self.changelog_entries@.dom() =~= orig.changelog_entries@.dom()) by {
                    assert forall|k: Seq<char>|
                        self.changelog_entries@.contains_key(k) implies orig.changelog_entries@.contains_key(
                            k,
                        ) by {
                        let j = choose|j: int|
                            0 <= j < self.changelog_entries.size()
                                && self.changelog_entries.key_seq()[j] == k;
                        assert(orig.changelog_entries.key_seq()[j] == k);
                    }
                }
            }
        }
        Ok(())
    }

    /// Set the schema generation to the one this build writes, as a save
    /// does before serializing.
    pub fn stamp_current_schema(&mut self)
        ensures
            *final(self) == (AtomicStore { schema_version: CURRENT_SCHEMA_VERSION, ..*old(self) }),
    {
        self.schema_version = CURRENT_SCHEMA_VERSION;
    }

    /// The section stored under `section_id`.
    pub fn section(&self, section_id: &str) -> (r: Option<&AtomicSection>)
        ensures
            match r {
                Some(s) => self.sections@.contains_key(section_id@) && *s == self.sections@[section_id@],
                None => !self.sections@.contains_key(section_id@),
            },
    {
        self.establish_wf();
        self.sections.get(section_id)
    }

    /// The changelog entry stored under `entry_id`.
    pub fn entry(&self, entry_id: &str) -> (r: Option<&AtomicChangelogEntry>)
        ensures
            match r {
                Some(e) => self.changelog_entries@.contains_key(entry_id@) && *e
                    == self.changelog_entries@[entry_id@],
                None => !self.changelog_entries@.contains_key(entry_id@),
            },
    {
        self.establish_wf();
        self.changelog_entries.get(entry_id)
    }

    /// The inventory entry registered under `inventory_id`; a lookup never
    /// registers one.
    pub fn inventory(&self, inventory_id: &str) -> (r: Option<&InventoryEntry>)
        ensures
            match r {
                Some(e) => self.inventory_entries@.contains_key(inventory_id@) && *e
                    == self.inventory_entries@[inventory_id@],
                None => !self.inventory_entries@.contains_key(inventory_id@),
            },
    {
        self.establish_wf();
        self.inventory_entries.get(inventory_id)
    }

    /// The registered inventory ids, sorted.
    pub fn atomic_inventory_id_set(&self) -> (r: Vec<String>)
        ensures
            strs(r) == self.inventory_entries.key_seq(),
            sorted_strict(strs(r)),
            strs(r).to_set() == self.inventory_entries@.dom(),
    {
        self.establish_wf();
        proof {
            self.inventory_entries.lemma_wf();
        }
        let n = self.inventory_entries.len();
        let mut r: Vec<String> = Vec::new();
        let mut i: usize = 0;
        while i < n
            invariant
                self.wf(),
                n == self.inventory_entries.size(),
                i <= n,
                strs(r) == self.inventory_entries.key_seq().subrange(0, i as int),
            decreases n - i,
        {
            let k = self.inventory_entries.key_at(i);
            let ghost before = strs(r);
            r.push(owned(k.as_str()));
            proof {
                assert(strs(r) =~= before.push(k@));
                assert(self.inventory_entries.key_seq().subrange(0, i + 1) =~= before.push(k@));
            }
            i = i + 1;
        }
        proof {
            let ks = self.inventory_entries.key_seq();
            assert(ks.subrange(0, n as int) =~= ks);
            assert forall|y: Seq<char>| ks.to_set().contains(y) <==> self.inventory_entries@.dom().contains(y) by {
                if ks.contains(y) {
                    let j = choose|j: int| 0 <= j < ks.len() && ks[j] == y;
                    assert(self.inventory_entries@.contains_key(ks[j]));
                }
            }
            assert(ks.to_set() =~= self.inventory_entries@.dom());
        }
        r
    }

    /// The section ids together with the parent prefixes they imply (the
    /// text before each `/` of an id), sorted, each once.
    pub fn atomic_section_id_set(&self) -> (r: Vec<String>)
        ensures
            sorted_strict(strs(r)),
            forall|y: Seq<char>|
                strs(r).contains(y) <==> implied_section_id(self.sections.key_seq(), y),
    {
        self.establish_wf();
        let ghost ks = self.sections.key_seq();
        let n = self.sections.len();
        let mut out: Vec<&str> = Vec::new();
        let mut i: usize = 0;
        while i < n
            invariant
                self.wf(),
                ks == self.sections.key_seq(),
                n == ks.len(),
                i <= n,
                sorted_strict(str_views(out@)),
                forall|y: Seq<char>|
                    str_views(out@).contains(y) <==> implied_section_id(ks.subrange(0, i as int), y),
            decreases n - i,
        {
            let key = self.sections.key_at(i).as_str();
            let ghost before = str_views(out@);
            insert_sorted(&mut out, key);
            let m = key.unicode_len();
            let mut j: usize = 0;
            while j < m
                invariant
                    m == key@.len(),
                    j <= m,
                    sorted_strict(str_views(out@)),
                    forall|y: Seq<char>|
                        str_views(out@).contains(y) <==> (before.contains(y) || y == key@ || exists|t: int|
                            t < j && #[trigger] slash_prefix(key@, t, y)),
                decreases m - j,
            {
                let ghost mid = str_views(out@);
                assert(forall|y: Seq<char>|
                    mid.contains(y) <==> (before.contains(y) || y == key@ || exists|t: int|
                        t < j && #[trigger] slash_prefix(key@, t, y)));
                let c = key.get_char(j);
                if c == '/' {
                    let prefix = key.substring_char(0, j);
                    insert_sorted(&mut out, prefix);
                    proof {
                        assert(slash_prefix(key@, j as int, prefix@));
                    }
                }
                proof {
                    assert forall|y: Seq<char>|
                        str_views(out@).contains(y) <==> (before.contains(y) || y == key@ || exists|t: int|
                            t < j + 1 && #[trigger] slash_prefix(key@, t, y)) by {
                        if exists|t: int| t < j + 1 && #[trigger] slash_prefix(key@, t, y) {
                            let t = choose|t: int| t < j + 1 && #[trigger] slash_prefix(key@, t, y);
                            if t < j {
                                assert(mid.contains(y));
                            } else {
                                assert(c == '/');
                            }
                        }
                        if mid.contains(y) {
                            if exists|t: int| t < j && #[trigger] slash_prefix(key@, t, y) {
                                let t = choose|t: int| t < j && #[trigger] slash_prefix(key@, t, y);
                                assert(t < j + 1 && slash_prefix(key@, t, y));
                            }
                        }
                    }
                }
                j = j + 1;
            }
            proof {
                let ks0 = ks.subrange(0, i as int);
                let ks1 = ks.subrange(0, i + 1);
                assert(ks1[i as int] == key@);
                assert forall|y: Seq<char>|
                    str_views(out@).contains(y) <==> implied_section_id(ks1, y) by {
                    if implied_section_id(ks1, y) {
                        let a = choose|a: int| 0 <= a < ks1.len() && #[trigger] id_or_parent(ks1[a], y);
                        if a < i {
                            assert(ks0[a] == ks1[a]);
                            assert(implied_section_id(ks0, y));
                        } else {
                            assert(ks1[a] == key@);
                            if y != key@ {
                                let t = choose|t: int| #[trigger] slash_prefix(key@, t, y);
                                assert(t < m);
                            }
                        }
                    }
                    if before.contains(y) {
                        let a = choose|a: int| 0 <= a < ks0.len() && #[trigger] id_or_parent(ks0[a], y);
                        assert(ks1[a] == ks0[a]);
                        assert(id_or_parent(ks1[a], y));
                    }
                    if y == key@ {
                        assert(id_or_parent(ks1[i as int], y));
                    }
                    if exists|t: int| t < m && #[trigger] slash_prefix(key@, t, y) {
                        assert(id_or_parent(ks1[i as int], y));
                    }
                }
            }
            i = i + 1;
        }
        assert(ks.subrange(0, n as int) =~= ks);
        let mut r: Vec<String> = Vec::new();
        let mut k: usize = 0;
        while k < out.len()
            invariant
                k <= out.len(),
                strs(r) == str_views(out@).subrange(0, k as int),
            decreases out.len() - k,
        {
            let ghost before = strs(r);
            r.push(owned(out[k]));
            proof {
                assert(strs(r) =~= before.push(out@[k as int]@));
                assert(str_views(out@).subrange(0, k + 1) =~= before.push(out@[k as int]@));
            }
            k = k + 1;
        }
        assert(str_views(out@).subrange(0, out.len() as int) =~= str_views(out@));
        r
    }

    /// The sections whose excerpt hash is empty, in section order.
    pub fn excerpt_hash_backfill_report(&self) -> (r: ExcerptHashBackfillReport)
        ensures
            r.rows@.map_values(|x: ExcerptHashBackfillRow| (x.section_id@, x.source_revision@))
                == backfill_rows(
                self.sections.key_seq(),
                self.sections.val_seq(),
                self.sections.size() as int,
            ),
    {
        self.establish_wf();
        let ghost ks = self.sections.key_seq();
        let ghost vs = self.sections.val_seq();
        let n = self.sections.len();
        let mut rows: Vec<ExcerptHashBackfillRow> = Vec::new();
        let mut i: usize = 0;
        while i < n
            invariant
                self.wf(),
                ks == self.sections.key_seq(),
                vs == self.sections.val_seq(),
                n == self.sections.size(),
                i <= n,
                rows@.map_values(|x: ExcerptHashBackfillRow| (x.section_id@, x.source_revision@))
                    == backfill_rows(ks, vs, i as int),
            decreases n - i,
        {
            let ghost before = rows@;
            let sid = self.sections.key_at(i);
            let sec = self.sections.val_at(i);
            match &sec.normative_excerpt {
                Some(ne) => {
                    if ne.text_sha256.as_str().unicode_len() == 0 {
                        rows.push(
                            ExcerptHashBackfillRow {
                                section_id: owned(sid.as_str()),
                                source_revision: owned(ne.source_revision.as_str()),
                            },
                        );
                    }
                },
                None => {},
            }
            proof {
                assert(rows@.map_values(
                    |x: ExcerptHashBackfillRow| (x.section_id@, x.source_revision@),
                ) =~= backfill_rows(ks, vs, i + 1));
            }
            i = i + 1;
        }
        ExcerptHashBackfillReport { rows }
    }
}

} // verus!
