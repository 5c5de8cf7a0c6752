//! The catalog of known dependencies: read from its source, put in order and
//! laid out as a table.
//!
//! The source groups the entries into categories, and any part of it may be
//! missing. What counts is the flat list of the entries that are complete.

use crate::text::{
    lemma_precedes_asymmetric, lemma_precedes_total, lemma_precedes_transitive, less, lines, pad,
    padded, precedes, rule, text_lines, texts,
};
use vstd::prelude::*;
use vstd::string::*;

verus! {

/// The width of the table's first column.
pub const ID_WIDTH: usize = 40;

/// The width to which descriptions are wrapped.
pub const WRAP_WIDTH: usize = 70;

/// The width of the rule below the table's head.
pub const RULE_WIDTH: usize = 120;

/// The table's title.
pub const TITLE: &'static str = "Available Spring Boot Dependencies";

/// The head of the first column.
pub const ID_HEAD: &'static str = "ID";

/// The head of the second column.
pub const DESCRIPTION_HEAD: &'static str = "Description";

/// What stands between a name and a description in a summary.
pub const SUMMARY_SEPARATOR: &'static str = " - ";

/// What stands between the columns.
pub const COLUMN_SEPARATOR: &'static str = " ";

/// A dependency that can be selected: its identifier, the name shown for it
/// and what it is good for.
#[derive(Debug, PartialEq, Eq)]
pub struct DependencyCatalogEntry {
    pub id: String,
    pub display_name: String,
    pub description: String,
}

/// An entry in the mathematical model: identifier, name, description.
pub type EntryText = (Seq<char>, Seq<char>, Seq<char>);

impl View for DependencyCatalogEntry {
    type V = EntryText;

    open spec fn view(&self) -> EntryText {
        (self.id@, self.display_name@, self.description@)
    }
}

/// The models of a list of entries.
pub open spec fn entry_texts(entries: Seq<DependencyCatalogEntry>) -> Seq<EntryText> {
    Seq::new(entries.len(), |i: int| entries[i]@)
}

/// An entry as the source has it. Each field is there or not.
#[derive(Debug, PartialEq, Eq)]
pub struct SourceEntry {
    pub id: Option<String>,
    pub name: Option<String>,
    pub description: Option<String>,
}

/// A category as the source has it, with its list of entries if it has one.
#[derive(Debug, PartialEq, Eq)]
pub struct SourceCategory {
    pub entries: Option<Vec<SourceEntry>>,
}

/// The catalog as the source has it, with its list of categories if it has
/// one.
#[derive(Debug, PartialEq, Eq)]
pub struct CatalogSource {
    pub categories: Option<Vec<SourceCategory>>,
}

/// The entry that a source entry stands for, where all its fields are there.
pub open spec fn complete(entry: SourceEntry) -> Option<EntryText> {
    match (entry.id, entry.name, entry.description) {
        (Some(id), Some(name), Some(description)) => Some((id@, name@, description@)),
        _ => None,
    }
}

/// The complete ones among `entries`, in their order.
pub open spec fn complete_entries(entries: Seq<SourceEntry>) -> Seq<EntryText>
    decreases entries.len(),
{
    if entries.len() == 0 {
        Seq::empty()
    } else {
        let before = complete_entries(entries.drop_last());
        match complete(entries.last()) {
            Some(entry) => before.push(entry),
            None => before,
        }
    }
}

/// The complete entries of a category; none where it has no list.
pub open spec fn category_entries(category: SourceCategory) -> Seq<EntryText> {
    match category.entries {
        Some(entries) => complete_entries(entries@),
        None => Seq::empty(),
    }
}

/// The complete entries of `categories`, category after category.
pub open spec fn flattened(categories: Seq<SourceCategory>) -> Seq<EntryText>
    decreases categories.len(),
{
    if categories.len() == 0 {
        Seq::empty()
    } else {
        flattened(categories.drop_last()) + category_entries(categories.last())
    }
}

/// The complete entries of a catalog; none where it has no list of
/// categories.
pub open spec fn catalog_entries(source: CatalogSource) -> Seq<EntryText> {
    match source.categories {
        Some(categories) => flattened(categories@),
        None => Seq::empty(),
    }
}

/// The flat list of the complete entries of `source`, in the order of the
/// source.
pub fn flatten(source: &CatalogSource) -> (entries: Vec<DependencyCatalogEntry>)
    ensures
        entry_texts(entries@) == catalog_entries(*source),
{
    let mut out: Vec<DependencyCatalogEntry> = Vec::new();
    let categories = match &source.categories {
        Some(categories) => categories,
        None => {
            return out;
        },
    };
    let mut c: usize = 0;
    while c < categories.len()
        invariant
            c <= categories.len(),
            entry_texts(out@) == flattened(categories@.take(c as int)),
        decreases categories.len() - c,
    {
        assert(categories@.take(c + 1).drop_last() =~= categories@.take(c as int));
        let ghost done = entry_texts(out@);
        match &categories[c].entries {
            Some(entries) => {
                let mut e: usize = 0;
                while e < entries.len()
                    invariant
                        e <= entries.len(),
                        entry_texts(out@) == done + complete_entries(entries@.take(e as int)),
                    decreases entries.len() - e,
                {
                    assert(entries@.take(e + 1).drop_last() =~= entries@.take(e as int));
                    let ghost seen = complete_entries(entries@.take(e as int));
                    let entry = &entries[e];
                    match (&entry.id, &entry.name, &entry.description) {
                        (Some(id), Some(name), Some(description)) => {
                            out.push(
                                DependencyCatalogEntry {
                                    id: id.clone(),
                                    display_name: name.clone(),
                                    description: description.clone(),
                                },
                            );
                            assert(done + seen.push((id@, name@, description@)) =~= (done
                                + seen).push((id@, name@, description@)));
                        },
                        _ => {},
                    }
                    e += 1;
                }
                assert(entries@.take(e as int) =~= entries@);
            },
            None => {},
        }
        c += 1;
    }
    assert(categories@.take(c as int) =~= categories@);
    out
}

/// No entry comes before one whose identifier precedes its own.
pub open spec fn ordered_by_id(entries: Seq<EntryText>) -> bool {
    forall|i: int, j: int| 0 <= i < j < entries.len() ==> !precedes(entries[j].0, entries[i].0)
}

/// How many entries at the head of `entries` have an identifier that `id`
/// does not precede: where an entry with `id` goes in behind its equals.
pub open spec fn insertion_point(entries: Seq<EntryText>, id: Seq<char>) -> nat
    decreases entries.len(),
{
    if entries.len() > 0 && !precedes(id, entries.first().0) {
        1 + insertion_point(entries.drop_first(), id)
    } else {
        0
    }
}

/// `entries` in the order of their identifiers; entries with the same
/// identifier stay in the order in which they came.
pub open spec fn sorted_by_id(entries: Seq<EntryText>) -> Seq<EntryText>
    decreases entries.len(),
{
    if entries.len() == 0 {
        Seq::empty()
    } else {
        let before = sorted_by_id(entries.drop_last());
        before.insert(insertion_point(before, entries.last().0) as int, entries.last())
    }
}

/// Where `id` precedes none of the first `n` identifiers and precedes the
/// next, `n` is the insertion point.
proof fn lemma_insertion_point(entries: Seq<EntryText>, id: Seq<char>, n: int)
    requires
        0 <= n <= entries.len(),
        forall|k: int| 0 <= k < n ==> !precedes(id, entries[k].0),
        n == entries.len() || precedes(id, entries[n].0),
    ensures
        insertion_point(entries, id) == n,
    decreases n,
{
    if n > 0 {
        let rest = entries.drop_first();
        lemma_insertion_point(rest, id, n - 1);
    }
}

/// The insertion point lies within the list, after entries that `id` does
/// not precede and before one that it does.
pub proof fn lemma_insertion_point_bounds(entries: Seq<EntryText>, id: Seq<char>)
    ensures
        insertion_point(entries, id) <= entries.len(),
        forall|k: int| 0 <= k < insertion_point(entries, id) ==> !precedes(id, entries[k].0),
        insertion_point(entries, id) < entries.len() ==> precedes(
            id,
            entries[insertion_point(entries, id) as int].0,
        ),
    decreases entries.len(),
{
    if entries.len() > 0 && !precedes(id, entries.first().0) {
        let rest = entries.drop_first();
        lemma_insertion_point_bounds(rest, id);
        assert forall|k: int| 0 <= k < insertion_point(entries, id) implies !precedes(
            id,
            entries[k].0,
        ) by {
            if k > 0 {
                assert(entries[k] == rest[k - 1]);
            }
        }
    }
}

/// Sorting keeps the number of entries and puts them in order.
pub proof fn lemma_sorted_by_id(entries: Seq<EntryText>)
    ensures
        sorted_by_id(entries).len() == entries.len(),
        ordered_by_id(sorted_by_id(entries)),
        sorted_by_id(entries).to_multiset() == entries.to_multiset(),
    decreases entries.len(),
{
    broadcast use vstd::seq_lib::group_to_multiset_ensures;

    if entries.len() == 0 {
    } else {
        let before = sorted_by_id(entries.drop_last());
        let entry = entries.last();
        let at = insertion_point(before, entry.0) as int;
        lemma_sorted_by_id(entries.drop_last());
        lemma_insertion_point_bounds(before, entry.0);
        let after = before.insert(at, entry);
        assert forall|i: int, j: int| 0 <= i < j < after.len() implies !precedes(
            after[j].0,
            after[i].0,
        ) by {
            if i == at {
                if j - 1 > at {
                    lemma_precedes_total(before[at].0, before[j - 1].0);
                    if before[at].0 != before[j - 1].0 {
                        lemma_precedes_transitive(entry.0, before[at].0, before[j - 1].0);
                    }
                }
                lemma_precedes_asymmetric(entry.0, before[j - 1].0);
            }
        }
        vstd::seq_lib::to_multiset_insert(before, at, entry);
        assert(entries =~= entries.drop_last().push(entry));
    }
}

/// The entries in the order of their identifiers; entries with the same
/// identifier stay in the order in which they came.
pub fn sort_by_id(entries: &Vec<DependencyCatalogEntry>) -> (sorted: Vec<DependencyCatalogEntry>)
    ensures
        entry_texts(sorted@) == sorted_by_id(entry_texts(entries@)),
{
    let mut sorted: Vec<DependencyCatalogEntry> = Vec::new();
    let mut i: usize = 0;
    while i < entries.len()
        invariant
            i <= entries.len(),
            entry_texts(sorted@) == sorted_by_id(entry_texts(entries@).take(i as int)),
        decreases entries.len() - i,
    {
        let entry = &entries[i];
        let ghost before = entry_texts(sorted@);
        let mut at: usize = 0;
        while at < sorted.len() && !less(entry.id.as_str(), sorted[at].id.as_str())
            invariant
                at <= sorted.len(),
                before == entry_texts(sorted@),
                forall|k: int| 0 <= k < at ==> !precedes(entry.id@, before[k].0),
            decreases sorted.len() - at,
        {
            at += 1;
        }
        proof {
            lemma_insertion_point(before, entry.id@, at as int);
        }
        sorted.insert(
            at,
            DependencyCatalogEntry {
                id: entry.id.clone(),
                display_name: entry.display_name.clone(),
                description: entry.description.clone(),
            },
        );
        assert(entry_texts(entries@).take(i + 1).drop_last() =~= entry_texts(entries@).take(
            i as int,
        ));
        i += 1;
    }
    assert(entry_texts(entries@).take(i as int) =~= entry_texts(entries@));
    sorted
}

/// `text` wrapped to lines of at most `width` columns, as `textwrap::fill`
/// wraps it.
pub uninterp spec fn wrapped_text(text: Seq<char>, width: usize) -> Seq<char>;

/// `textwrap::fill` with a width. Trusted: that the text which comes back is
/// decided by the text and the width alone. Nothing is claimed about where
/// the lines are broken.
#[verifier::external_body]
fn wrap_text(text: &str, width: usize) -> (r: String)
    ensures
        r@ == wrapped_text(text@, width),
{
    textwrap::fill(text, width)
}

/// What the table says of an entry: its name, then its description.
pub open spec fn summary(name: Seq<char>, description: Seq<char>) -> Seq<char> {
    name + SUMMARY_SEPARATOR@ + description
}

impl DependencyCatalogEntry {
    /// What the table says of this entry.
    pub fn summary(&self) -> (r: String)
        ensures
            r@ == summary(self.display_name@, self.description@),
    {
        let mut out = self.display_name.clone();
        out.append(SUMMARY_SEPARATOR);
        out.append(self.description.as_str());
        out
    }
}

/// A row of the table: the first column filled up to its width, then the
/// second.
pub open spec fn row(first: Seq<char>, second: Seq<char>) -> Seq<char> {
    padded(first, ' ', ID_WIDTH as nat) + COLUMN_SEPARATOR@ + second
}

/// The rows of an entry whose wrapped summary is `wrapped`: one for each line
/// of it, the identifier in the first and nothing in the others. No row where
/// the summary has no line.
pub open spec fn entry_rows(id: Seq<char>, wrapped: Seq<char>) -> Seq<Seq<char>> {
    Seq::new(
        text_lines(wrapped).len(),
        |i: int|
            row(
                if i == 0 {
                    id
                } else {
                    Seq::empty()
                },
                text_lines(wrapped)[i],
            ),
    )
}

/// A row of the table.
fn make_row(first: &str, second: &str) -> (r: String)
    ensures
        r@ == row(first@, second@),
{
    let mut out = pad(first, ID_WIDTH);
    out.append(COLUMN_SEPARATOR);
    out.append(second);
    out
}

/// The rows of the entry `id` whose wrapped summary is `wrapped`.
pub fn rows_of_entry(id: &str, wrapped: &str) -> (rows: Vec<String>)
    ensures
        texts(rows@) == entry_rows(id@, wrapped@),
{
    let parts = lines(wrapped);
    assert(forall|k: int| 0 <= k < parts.len() ==> text_lines(wrapped@)[k] == parts@[k]@);
    proof {
        reveal_strlit("");
    }
    let mut rows: Vec<String> = Vec::new();
    let mut i: usize = 0;
    while i < parts.len()
        invariant
            i <= parts.len(),
            parts.len() == text_lines(wrapped@).len(),
            forall|k: int| 0 <= k < parts.len() ==> text_lines(wrapped@)[k] == parts@[k]@,
            ""@.len() == 0,
            rows.len() == i,
            forall|k: int| 0 <= k < i ==> rows@[k]@ == entry_rows(id@, wrapped@)[k],
        decreases parts.len() - i,
    {
        if i == 0 {
            rows.push(make_row(id, parts[i].as_str()));
        } else {
            rows.push(make_row("", parts[i].as_str()));
        }
        i += 1;
    }
    rows
}

/// The rows of `entries`, entry after entry, each with its summary wrapped.
pub open spec fn table_rows(entries: Seq<EntryText>) -> Seq<Seq<char>>
    decreases entries.len(),
{
    if entries.len() == 0 {
        Seq::empty()
    } else {
        table_rows(entries.drop_last()) + entry_rows(
            entries.last().0,
            wrapped_text(summary(entries.last().1, entries.last().2), WRAP_WIDTH),
        )
    }
}

/// The lines above the rows: the title, an empty line, the column heads and
/// a rule.
pub open spec fn table_head() -> Seq<Seq<char>> {
    seq![
        TITLE@,
        Seq::empty(),
        row(ID_HEAD@, DESCRIPTION_HEAD@),
        padded(Seq::empty(), '-', RULE_WIDTH as nat),
    ]
}

/// The table of `entries`: the head, then the rows of the entries in the
/// order of their identifiers.
pub open spec fn table(entries: Seq<EntryText>) -> Seq<Seq<char>> {
    table_head() + table_rows(sorted_by_id(entries))
}

/// The lines of the table of `entries`.
pub fn tabulate(entries: &Vec<DependencyCatalogEntry>) -> (out: Vec<String>)
    ensures
        texts(out@) == table(entry_texts(entries@)),
{
    let sorted = sort_by_id(entries);
    let ghost model = entry_texts(sorted@);
    let mut out: Vec<String> = Vec::new();
    out.push(TITLE.to_owned());
    out.push(String::new());
    out.push(make_row(ID_HEAD, DESCRIPTION_HEAD));
    out.push(rule(RULE_WIDTH));
    let mut i: usize = 0;
    while i < sorted.len()
        invariant
            i <= sorted.len(),
            model == entry_texts(sorted@),
            texts(out@) == table_head() + table_rows(model.take(i as int)),
        decreases sorted.len() - i,
    {
        let entry = &sorted[i];
        let wrapped = wrap_text(entry.summary().as_str(), WRAP_WIDTH);
        let mut rows = rows_of_entry(entry.id.as_str(), wrapped.as_str());
        let ghost held = texts(out@);
        let ghost more = texts(rows@);
        out.append(&mut rows);
        assert(texts(out@) =~= held + more);
        assert(model.take(i + 1).drop_last() =~= model.take(i as int));
        i += 1;
    }
    assert(model.take(i as int) =~= model);
    out
}

/// The lines of the table of the complete entries of `source`.
pub fn listing(source: &CatalogSource) -> (out: Vec<String>)
    ensures
        texts(out@) == table(catalog_entries(*source)),
{
    let entries = flatten(source);
    tabulate(&entries)
}

} // verus!
