use crate::text::{
    chars_of, find_in, first_match, lemma_first_match, lemma_first_match_skip, line_ranges, lines,
    range_texts, string_of,
};
use vstd::prelude::*;
use vstd::string::StringExecFns;

verus! {

/// One key with its value.
#[derive(Clone, Debug, PartialEq, Eq)]
pub struct Entry {
    pub key: String,
    pub value: String,
}

/// The key/value pairs of a metadata block.
///
/// A key has one value: a later value for a key replaces the earlier one.
#[derive(Debug)]
pub struct Frontmatter {
    /// The entries, each key once.
    entries: Vec<Entry>,
}

/// The mapping that a list of entries stands for: each entry is written in
/// turn, so that the last one for a key stays.
pub open spec fn entries_map(entries: Seq<Entry>) -> Map<Seq<char>, Seq<char>>
    decreases entries.len(),
{
    if entries.len() == 0 {
        Map::empty()
    } else {
        entries_map(entries.drop_last()).insert(entries.last().key@, entries.last().value@)
    }
}

/// No two entries have the same key.
spec fn distinct_keys(entries: Seq<Entry>) -> bool {
    forall|i: int, j: int|
        0 <= i < j < entries.len() ==> (#[trigger] entries[i]).key@ != (#[trigger] entries[j]).key@
}

/// No entry has the key `key`.
spec fn absent(entries: Seq<Entry>, key: Seq<char>) -> bool {
    forall|j: int| 0 <= j < entries.len() ==> (#[trigger] entries[j]).key@ != key
}

/// A key that no entry has is not in the mapping.
proof fn lemma_absent(entries: Seq<Entry>, key: Seq<char>)
    requires
        absent(entries, key),
    ensures
        !entries_map(entries).contains_key(key),
    decreases entries.len(),
{
    if entries.len() > 0 {
        let front = entries.drop_last();
        assert(entries[entries.len() - 1].key@ != key);
        assert forall|j: int| 0 <= j < front.len() implies (#[trigger] front[j]).key@ != key by {
            assert(front[j] == entries[j]);
        }
        lemma_absent(front, key);
    }
}

/// Where every key stands once, the mapping gives each key the value that
/// stands beside it.
proof fn lemma_present(entries: Seq<Entry>, i: int)
    requires
        distinct_keys(entries),
        0 <= i < entries.len(),
    ensures
        entries_map(entries).contains_key(entries[i].key@),
        entries_map(entries)[entries[i].key@] == entries[i].value@,
    decreases entries.len(),
{
    let last = entries.len() - 1;
    if i < last {
        let front = entries.drop_last();
        assert(entries[i].key@ != entries[last].key@);
        assert forall|a: int, b: int| 0 <= a < b < front.len() implies (#[trigger] front[a]).key@
            != (#[trigger] front[b]).key@ by {
            assert(front[a] == entries[a] && front[b] == entries[b]);
        }
        assert(front[i] == entries[i]);
        lemma_present(front, i);
    }
}

/// Putting a new value beside a key sets the value of that key in the
/// mapping, and keeps every key standing once.
proof fn lemma_replace(entries: Seq<Entry>, i: int, entry: Entry)
    requires
        distinct_keys(entries),
        0 <= i < entries.len(),
        entry.key@ == entries[i].key@,
    ensures
        distinct_keys(entries.update(i, entry)),
        entries_map(entries.update(i, entry)) == entries_map(entries).insert(
            entry.key@,
            entry.value@,
        ),
    decreases entries.len(),
{
    let updated = entries.update(i, entry);
    assert forall|a: int, b: int| 0 <= a < b < updated.len() implies (#[trigger] updated[a]).key@
        != (#[trigger] updated[b]).key@ by {
        assert(updated[a].key@ == entries[a].key@ && updated[b].key@ == entries[b].key@);
    }
    let last = entries.len() - 1;
    let front = entries.drop_last();
    if i == last {
        assert(updated.drop_last() =~= front);
        assert(entries_map(updated) =~= entries_map(entries).insert(entry.key@, entry.value@));
    } else {
        assert forall|a: int, b: int| 0 <= a < b < front.len() implies (#[trigger] front[a]).key@
            != (#[trigger] front[b]).key@ by {
            assert(front[a] == entries[a] && front[b] == entries[b]);
        }
        assert(front[i] == entries[i]);
        lemma_replace(front, i, entry);
        assert(updated.drop_last() =~= front.update(i, entry));
        assert(updated.last() == entries.last());
        assert(entries[i].key@ != entries[last].key@);
        assert(entries_map(updated) =~= entries_map(entries).insert(entry.key@, entry.value@));
    }
}

/// Where every key stands once, the mapping has as many keys as there are
/// entries.
proof fn lemma_count(entries: Seq<Entry>)
    requires
        distinct_keys(entries),
    ensures
        entries_map(entries).dom().finite(),
        entries_map(entries).dom().len() == entries.len(),
    decreases entries.len(),
{
    if entries.len() == 0 {
        assert(entries_map(entries).dom() =~= Set::<Seq<char>>::empty());
    } else {
        let last = entries.len() - 1;
        let front = entries.drop_last();
        assert forall|a: int, b: int| 0 <= a < b < front.len() implies (#[trigger] front[a]).key@
            != (#[trigger] front[b]).key@ by {
            assert(front[a] == entries[a] && front[b] == entries[b]);
        }
        lemma_count(front);
        assert forall|j: int| 0 <= j < front.len() implies (#[trigger] front[j]).key@
            != entries[last].key@ by {
            assert(front[j] == entries[j]);
        }
        lemma_absent(front, entries[last].key@);
        assert(entries_map(entries).dom() =~= entries_map(front).dom().insert(
            entries[last].key@,
        ));
    }
}

impl View for Frontmatter {
    type V = Map<Seq<char>, Seq<char>>;

    closed spec fn view(&self) -> Map<Seq<char>, Seq<char>> {
        entries_map(self.entries@)
    }
}

impl Frontmatter {
    #[verifier::type_invariant]
    spec fn each_key_once(&self) -> bool {
        distinct_keys(self.entries@)
    }

    /// A mapping without keys.
    pub fn new() -> (fm: Frontmatter)
        ensures
            fm@ == Map::<Seq<char>, Seq<char>>::empty(),
    {
        Frontmatter { entries: Vec::new() }
    }

    /// The number of keys.
    pub fn len(&self) -> (n: usize)
        ensures
            self@.dom().finite(),
            n == self@.dom().len(),
    {
        proof {
            use_type_invariant(self);
            lemma_count(self.entries@);
        }
        self.entries.len()
    }

    /// Sets the value of `key`.
    pub fn insert(&mut self, key: String, value: String)
        ensures
            final(self)@ == old(self)@.insert(key@, value@),
    {
        proof {
            use_type_invariant(&*self);
        }
        let mut entries: Vec<Entry> = Vec::new();
        std::mem::swap(&mut entries, &mut self.entries);
        let ghost before = entries@;
        let entry = Entry { key, value };
        match position(&entries, &entry.key) {
            Some(at) => {
                proof {
                    lemma_replace(before, at as int, entry);
                }
                entries[at] = entry;
                assert(entries@ =~= before.update(at as int, entry));
            },
            None => {
                entries.push(entry);
                assert(entries@.drop_last() =~= before);
            },
        }
        self.entries = entries;
    }

    /// The value of `key`, if it has one.
    pub fn get(&self, key: &str) -> (value: Option<&String>)
        ensures
            match value {
                Some(v) => self@.contains_key(key@) && self@[key@] == v@,
                None => !self@.contains_key(key@),
            },
    {
        proof {
            use_type_invariant(self);
        }
        let wanted = String::from_str(key);
        match position(&self.entries, &wanted) {
            Some(at) => {
                proof {
                    lemma_present(self.entries@, at as int);
                }
                Some(&self.entries[at].value)
            },
            None => {
                proof {
                    lemma_absent(self.entries@, key@);
                }
                None
            },
        }
    }
}

/// Where the key `key` stands among the entries.
fn position(entries: &Vec<Entry>, key: &String) -> (at: Option<usize>)
    ensures
        match at {
            Some(i) => i < entries@.len() && entries@[i as int].key@ == key@,
            None => absent(entries@, key@),
        },
{
    let mut i: usize = 0;
    while i < entries.len()
        invariant
            i <= entries@.len(),
            forall|j: int| 0 <= j < i ==> (#[trigger] entries@[j]).key@ != key@,
        decreases entries@.len() - i,
    {
        if entries[i].key == *key {
            return Some(i);
        }
        i = i + 1;
    }
    None
}

/// The separator between a key and its value.
pub open spec fn separator() -> Seq<char> {
    seq![':', ' ']
}

/// The key and the value of a line: what stands before and after the first
/// separator. A line without a separator has neither.
pub open spec fn split_entry(line: Seq<char>) -> Option<(Seq<char>, Seq<char>)> {
    match first_match(line, separator(), 0) {
        Some(at) => Some((line.take(at), line.skip(at + 2))),
        None => None,
    }
}

/// The mapping that the given lines describe, read from first to last.
pub open spec fn lines_map(lines: Seq<Seq<char>>) -> Map<Seq<char>, Seq<char>>
    decreases lines.len(),
{
    if lines.len() == 0 {
        Map::empty()
    } else {
        let before = lines_map(lines.drop_last());
        match split_entry(lines.last()) {
            Some((key, value)) => before.insert(key, value),
            None => before,
        }
    }
}

/// The mapping that the text of a metadata block describes.
pub open spec fn frontmatter_map(text: Seq<char>) -> Map<Seq<char>, Seq<char>> {
    lines_map(lines(text))
}

/// A line without a separator changes nothing.
pub proof fn lemma_malformed_line_is_skipped(lines: Seq<Seq<char>>, line: Seq<char>)
    requires
        split_entry(line) is None,
    ensures
        lines_map(lines.push(line)) == lines_map(lines),
{
    assert(lines.push(line).drop_last() =~= lines);
}

/// A line with a separator sets the value of its key, whatever the key's
/// value was before, and leaves every other key as it was.
pub proof fn lemma_last_value_wins(lines: Seq<Seq<char>>, line: Seq<char>)
    requires
        split_entry(line) is Some,
    ensures
        lines_map(lines.push(line)) == lines_map(lines).insert(
            split_entry(line).unwrap().0,
            split_entry(line).unwrap().1,
        ),
{
    assert(lines.push(line).drop_last() =~= lines);
}

/// An empty text describes the empty mapping.
pub proof fn lemma_empty_frontmatter()
    ensures
        frontmatter_map(Seq::empty()) == Map::<Seq<char>, Seq<char>>::empty(),
{
}

/// Reads the text of a metadata block.
///
/// Each line of the form `key: value` sets the value of its key; every other
/// line is skipped.
pub fn parse_frontmatter(input: &str) -> (fm: Frontmatter)
    ensures
        fm@ == frontmatter_map(input@),
{
    let chars = chars_of(input);
    let ranges = line_ranges(&chars);
    let sep: Vec<char> = vec![':', ' '];
    assert(sep@ =~= separator());
    let mut fm = Frontmatter::new();
    let mut k: usize = 0;
    assert(lines(input@).take(0) =~= Seq::<Seq<char>>::empty());
    while k < ranges.len()
        invariant
            chars@ == input@,
            sep@ == separator(),
            k <= ranges@.len(),
            range_texts(chars@, ranges@) == lines(chars@),
            forall|j: int|
                0 <= j < ranges@.len() ==> (#[trigger] ranges@[j]).0 <= ranges@[j].1
                    <= chars@.len(),
            fm@ == lines_map(lines(input@).take(k as int)),
        decreases ranges@.len() - k,
    {
        let (start, end) = ranges[k];
        let ghost line = chars@.subrange(start as int, end as int);
        proof {
            assert(range_texts(chars@, ranges@)[k as int] == line);
            assert(lines(input@).take(k + 1).drop_last() =~= lines(input@).take(k as int));
            assert(lines(input@).take(k + 1).last() == line);
            assert(line =~= chars@.take(end as int).skip(start as int));
            lemma_first_match_skip(chars@.take(end as int), separator(), start as int, 0);
            lemma_first_match(chars@.take(end as int), separator(), start as int);
        }
        if let Some(at) = find_in(&chars, &sep, start, end) {
            let key = string_of(&chars, start, at);
            let value = string_of(&chars, at + 2, end);
            proof {
                assert(line.take(at - start) =~= chars@.subrange(start as int, at as int));
                assert(line.skip(at - start + 2) =~= chars@.subrange(at + 2, end as int));
            }
            fm.insert(key, value);
        }
        k = k + 1;
    }
    assert(lines(input@).take(k as int) =~= lines(input@));
    fm
}

} // verus!
