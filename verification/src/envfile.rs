//! A file of `key=value` lines, held in memory: read from bytes, changed
//! key by key, written back to bytes. The order of the keys is kept.

use crate::text::{
    bytes_eq, copy_bytes, first_sep, lemma_first_sep, lemma_split_concat, lemma_split_none,
    push_bytes, split, split_bytes, views,
};
use vstd::prelude::*;

verus! {

/// The byte between a key and its value.
pub const EQUALS: u8 = 61;

/// The byte at the end of a line.
pub const NEWLINE: u8 = 10;

/// What a file holds: keys with their values, in the order of the file.
pub type Entries = Seq<(Seq<u8>, Seq<u8>)>;

/// The place of the first entry with the key, or the number of entries
/// where no entry has it.
pub open spec fn position(entries: Entries, key: Seq<u8>) -> int
    decreases entries.len(),
{
    if entries.len() == 0 || entries[0].0 == key {
        0
    } else {
        1 + position(entries.drop_first(), key)
    }
}

/// The value of the key, if the entries hold the key.
pub open spec fn lookup(entries: Entries, key: Seq<u8>) -> Option<Seq<u8>> {
    let i = position(entries, key);
    if 0 <= i < entries.len() {
        Some(entries[i].1)
    } else {
        None
    }
}

/// The entries with the value set for the key: in place where the key is
/// there already, at the end where it is new.
pub open spec fn put(entries: Entries, key: Seq<u8>, value: Seq<u8>) -> Entries {
    let i = position(entries, key);
    if 0 <= i < entries.len() {
        entries.update(i, (key, value))
    } else {
        entries.push((key, value))
    }
}

/// No two entries have the same key.
pub open spec fn distinct_keys(entries: Entries) -> bool {
    forall|i: int, j: int|
        #![trigger entries[i], entries[j]]
        0 <= i < j < entries.len() ==> entries[i].0 != entries[j].0
}

/// What a line says: the key before the first `=` and the value behind it.
/// A line without `=` says nothing.
pub open spec fn line_entry(line: Seq<u8>) -> Option<(Seq<u8>, Seq<u8>)> {
    let i = first_sep(line, EQUALS);
    if 0 <= i < line.len() {
        Some((line.take(i), line.skip(i + 1)))
    } else {
        None
    }
}

/// What the lines say, taken in order: a later line for a key that an
/// earlier line has set changes the value and leaves the key in its place.
pub open spec fn parse_lines(lines: Seq<Seq<u8>>) -> Entries
    decreases lines.len(),
{
    if lines.len() == 0 {
        Seq::empty()
    } else {
        let before = parse_lines(lines.drop_last());
        match line_entry(lines.last()) {
            Some((key, value)) => put(before, key, value),
            None => before,
        }
    }
}

/// What the bytes of a file say.
pub open spec fn parse(data: Seq<u8>) -> Entries {
    parse_lines(split(data, NEWLINE))
}

/// The line of an entry, without the end of line.
pub open spec fn line_of(entry: (Seq<u8>, Seq<u8>)) -> Seq<u8> {
    entry.0 + seq![EQUALS] + entry.1
}

/// The bytes of the file that holds the entries: for each entry, in order,
/// the key, `=`, the value and the end of line.
pub open spec fn render(entries: Entries) -> Seq<u8>
    decreases entries.len(),
{
    if entries.len() == 0 {
        Seq::empty()
    } else {
        render(entries.drop_last()) + line_of(entries.last()) + seq![NEWLINE]
    }
}

/// Entries that a file can hold and give back: no key twice, no `=` and no
/// end of line in a key, no end of line in a value.
pub open spec fn printable(entries: Entries) -> bool {
    &&& distinct_keys(entries)
    &&& forall|i: int, k: int|
        #![trigger entries[i].0[k]]
        0 <= i < entries.len() && 0 <= k < entries[i].0.len() ==> entries[i].0[k] != EQUALS
            && entries[i].0[k] != NEWLINE
    &&& forall|i: int, k: int|
        #![trigger entries[i].1[k]]
        0 <= i < entries.len() && 0 <= k < entries[i].1.len() ==> entries[i].1[k] != NEWLINE
}

/// `position` is the place of the first entry with the key.
pub proof fn lemma_position(entries: Entries, key: Seq<u8>, j: int)
    requires
        0 <= j <= entries.len(),
        forall|k: int| 0 <= k < j ==> (#[trigger] entries[k]).0 != key,
        j == entries.len() || entries[j].0 == key,
    ensures
        position(entries, key) == j,
    decreases j,
{
    if j > 0 {
        let t = entries.drop_first();
        assert(entries[0].0 != key);
        assert forall|k: int| 0 <= k < j - 1 implies (#[trigger] t[k]).0 != key by {
            assert(t[k] == entries[k + 1]);
        }
        lemma_position(t, key, j - 1);
    }
}

/// No entry before `position` has the key, and the entry there has it.
pub proof fn lemma_position_is_first(entries: Entries, key: Seq<u8>)
    ensures
        0 <= position(entries, key) <= entries.len(),
        forall|k: int| 0 <= k < position(entries, key) ==> (#[trigger] entries[k]).0 != key,
        position(entries, key) < entries.len() ==> entries[position(entries, key)].0 == key,
    decreases entries.len(),
{
    if entries.len() == 0 || entries[0].0 == key {
    } else {
        let t = entries.drop_first();
        lemma_position_is_first(t, key);
        assert forall|k: int| 0 <= k < position(entries, key) implies (#[trigger] entries[k]).0
            != key by {
            if k > 0 {
                assert(t[k - 1] == entries[k]);
            }
        }
        if position(t, key) < t.len() {
            assert(t[position(t, key)] == entries[position(t, key) + 1]);
        }
    }
}

/// Setting a value keeps the keys distinct.
pub proof fn lemma_put_keeps_distinct(entries: Entries, key: Seq<u8>, value: Seq<u8>)
    requires
        distinct_keys(entries),
    ensures
        distinct_keys(put(entries, key, value)),
{
    lemma_position_is_first(entries, key);
    let after = put(entries, key, value);
    let p = position(entries, key);
    assert forall|i: int, j: int|
        #![trigger after[i], after[j]]
        0 <= i < j < after.len() implies after[i].0 != after[j].0 by {
        if p < entries.len() {
            assert(after[i].0 == entries[i].0);
            assert(after[j].0 == entries[j].0);
        } else if j < entries.len() {
            assert(after[i] == entries[i] && after[j] == entries[j]);
        } else {
            assert(after[i] == entries[i]);
        }
    }
}

/// What was set is what is found: the key has the new value, every other
/// key has what it had.
pub proof fn law_lookup_after_put(entries: Entries, key: Seq<u8>, value: Seq<u8>, other: Seq<u8>)
    ensures
        lookup(put(entries, key, value), key) == Some(value),
        other != key ==> lookup(put(entries, key, value), other) == lookup(entries, other),
{
    lemma_position_is_first(entries, key);
    lemma_position_is_first(entries, other);
    let after = put(entries, key, value);
    let p = position(entries, key);
    assert forall|k: int| 0 <= k < p implies (#[trigger] after[k]).0 != key by {
        assert(after[k] == entries[k]);
    }
    lemma_position(after, key, p);
    if other != key {
        let q = position(entries, other);
        assert forall|k: int| 0 <= k < q implies (#[trigger] after[k]).0 != other by {
            assert(after[k].0 == entries[k].0 || k == entries.len());
        }
        if q < entries.len() {
            assert(after[q] == entries[q]);
            lemma_position(after, other, q);
        } else {
            assert forall|k: int| 0 <= k < after.len() implies (#[trigger] after[k]).0
                != other by {
                if k < entries.len() {
                    assert(after[k].0 == entries[k].0);
                }
            }
            lemma_position(after, other, after.len() as int);
        }
    }
}

/// Setting a value leaves every key where it was: the keys in their order
/// are as before, with the new key at the end where it was not there.
pub proof fn law_put_keeps_order(entries: Entries, key: Seq<u8>, value: Seq<u8>)
    ensures
        forall|i: int|
            0 <= i < entries.len() ==> (#[trigger] put(entries, key, value)[i]).0 == entries[i].0,
        forall|i: int|
            0 <= i < entries.len() && entries[i].0 != key ==> #[trigger] put(entries, key, value)[i]
                == entries[i],
        put(entries, key, value).len() == if lookup(entries, key) is Some {
            entries.len()
        } else {
            entries.len() + 1
        },
{
    lemma_position_is_first(entries, key);
}

/// Setting the same value for the same key a second time changes nothing.
pub proof fn law_put_twice(entries: Entries, key: Seq<u8>, value: Seq<u8>)
    ensures
        put(put(entries, key, value), key, value) == put(entries, key, value),
{
    lemma_position_is_first(entries, key);
    let once = put(entries, key, value);
    let p = position(entries, key);
    assert forall|k: int| 0 <= k < p implies (#[trigger] once[k]).0 != key by {
        assert(once[k] == entries[k]);
    }
    lemma_position(once, key, p);
    assert(put(once, key, value) =~= once);
}

/// The lines of the entries, in order.
pub open spec fn lines_of(entries: Entries) -> Seq<Seq<u8>> {
    Seq::new(entries.len(), |i: int| line_of(entries[i]))
}

/// The pieces of a rendered file followed by more bytes are the lines of
/// the entries followed by the pieces of those bytes.
proof fn lemma_split_render(entries: Entries, rest: Seq<u8>)
    requires
        printable(entries),
    ensures
        split(render(entries) + rest, NEWLINE) == lines_of(entries) + split(rest, NEWLINE),
    decreases entries.len(),
{
    if entries.len() == 0 {
        assert(render(entries) + rest =~= rest);
        assert(lines_of(entries) + split(rest, NEWLINE) =~= split(rest, NEWLINE));
    } else {
        let front = entries.drop_last();
        let last = entries.last();
        let line = line_of(last);
        assert(printable(front)) by {
            assert forall|i: int, j: int|
                #![trigger front[i], front[j]]
                0 <= i < j < front.len() implies front[i].0 != front[j].0 by {
                assert(front[i] == entries[i] && front[j] == entries[j]);
            }
            assert forall|i: int, k: int|
                #![trigger front[i].0[k]]
                0 <= i < front.len() && 0 <= k < front[i].0.len() implies front[i].0[k] != EQUALS
                && front[i].0[k] != NEWLINE by {
                assert(front[i].0[k] == entries[i].0[k]);
            }
            assert forall|i: int, k: int|
                #![trigger front[i].1[k]]
                0 <= i < front.len() && 0 <= k < front[i].1.len() implies front[i].1[k]
                != NEWLINE by {
                assert(front[i].1[k] == entries[i].1[k]);
            }
        }
        let tail = line + seq![NEWLINE] + rest;
        assert(render(entries) + rest =~= render(front) + tail);
        lemma_split_render(front, tail);
        lemma_split_concat(line, rest, NEWLINE);
        assert forall|k: int| 0 <= k < line.len() implies line[k] != NEWLINE by {
            let n = entries.len() - 1;
            if k < last.0.len() {
                assert(line[k] == entries[n].0[k]);
            } else if k > last.0.len() {
                assert(line[k] == entries[n].1[k - last.0.len() - 1]);
            }
        }
        lemma_split_none(line, NEWLINE);
        assert(lines_of(front) + (seq![line] + split(rest, NEWLINE)) =~= lines_of(entries) + split(
            rest,
            NEWLINE,
        ));
    }
}

/// Reading the lines of printable entries gives the entries.
proof fn lemma_parse_lines_of(entries: Entries)
    requires
        printable(entries),
    ensures
        parse_lines(lines_of(entries)) == entries,
    decreases entries.len(),
{
    if entries.len() == 0 {
        assert(lines_of(entries) =~= Seq::empty());
        assert(entries =~= Seq::empty());
    } else {
        let n = entries.len() - 1;
        let front = entries.drop_last();
        let last = entries.last();
        let line = line_of(last);
        assert(printable(front)) by {
            assert forall|i: int, j: int|
                #![trigger front[i], front[j]]
                0 <= i < j < front.len() implies front[i].0 != front[j].0 by {
                assert(front[i] == entries[i] && front[j] == entries[j]);
            }
            assert forall|i: int, k: int|
                #![trigger front[i].0[k]]
                0 <= i < front.len() && 0 <= k < front[i].0.len() implies front[i].0[k] != EQUALS
                && front[i].0[k] != NEWLINE by {
                assert(front[i].0[k] == entries[i].0[k]);
            }
            assert forall|i: int, k: int|
                #![trigger front[i].1[k]]
                0 <= i < front.len() && 0 <= k < front[i].1.len() implies front[i].1[k]
                != NEWLINE by {
                assert(front[i].1[k] == entries[i].1[k]);
            }
        }
        lemma_parse_lines_of(front);
        assert(lines_of(entries).drop_last() =~= lines_of(front));
        assert(lines_of(entries).last() == line);
        assert forall|k: int| 0 <= k < last.0.len() implies line[k] != EQUALS by {
            assert(line[k] == entries[n].0[k]);
        }
        assert(line[last.0.len() as int] == EQUALS);
        lemma_first_sep(line, EQUALS, last.0.len() as int);
        assert(line.take(last.0.len() as int) =~= last.0);
        assert(line.skip(last.0.len() as int + 1) =~= last.1);
        assert(line_entry(line) == Some(last));
        assert forall|k: int| 0 <= k < front.len() implies (#[trigger] front[k]).0 != last.0 by {
            assert(front[k] == entries[k]);
            assert(entries[k].0 != entries[n].0);
        }
        lemma_position(front, last.0, front.len() as int);
        assert(put(front, last.0, last.1) =~= entries);
    }
}

/// Writing printable entries to a file and reading the file gives the
/// entries again: the same keys with the same values in the same order.
pub proof fn law_round_trip(entries: Entries)
    requires
        printable(entries),
    ensures
        parse(render(entries)) == entries,
{
    let empty = Seq::<u8>::empty();
    lemma_split_render(entries, empty);
    assert(render(entries) + empty =~= render(entries));
    lemma_split_none(empty, NEWLINE);
    let lines = lines_of(entries) + seq![empty];
    assert(split(render(entries), NEWLINE) == lines);
    assert(lines.drop_last() =~= lines_of(entries));
    assert(lines.last() == empty);
    assert(line_entry(empty) is None);
    lemma_parse_lines_of(entries);
}

/// One key with its value.
#[derive(Debug)]
pub struct Entry {
    pub key: Vec<u8>,
    pub value: Vec<u8>,
}

/// The entries of `v` as the mathematical model has them.
pub open spec fn entry_models(v: Seq<Entry>) -> Entries {
    Seq::new(v.len(), |i: int| (v[i].key@, v[i].value@))
}

/// A file of `key=value` lines, held in memory.
#[derive(Debug)]
pub struct EnvFile {
    pub store: Vec<Entry>,
}

impl View for EnvFile {
    type V = Entries;

    open spec fn view(&self) -> Entries {
        entry_models(self.store@)
    }
}

impl EnvFile {
    /// The file that the bytes hold. Lines without `=` are passed over; of
    /// two lines for one key the later one gives the value.
    pub fn new(data: &[u8]) -> (file: EnvFile)
        ensures
            file@ == parse(data@),
            distinct_keys(file@),
    {
        let lines = split_bytes(data, NEWLINE);
        let ghost all = split(data@, NEWLINE);
        let mut file = EnvFile { store: Vec::new() };
        let mut i: usize = 0;
        assert(file@ =~= parse_lines(all.take(0)));
        while i < lines.len()
            invariant
                0 <= i <= lines.len(),
                views(lines@) == all,
                file@ == parse_lines(all.take(i as int)),
                distinct_keys(file@),
            decreases lines.len() - i,
        {
            let line = &lines[i];
            proof {
                assert(all.take(i + 1).drop_last() =~= all.take(i as int));
                assert(all.take(i + 1).last() == line@);
            }
            let mut at: usize = 0;
            while at < line.len() && line[at] != EQUALS
                invariant
                    0 <= at <= line.len(),
                    forall|k: int| 0 <= k < at ==> line@[k] != EQUALS,
                decreases line.len() - at,
            {
                at += 1;
            }
            proof {
                lemma_first_sep(line@, EQUALS, at as int);
            }
            if at < line.len() {
                let key = copy_bytes(vstd::slice::slice_subrange(line.as_slice(), 0, at));
                let value = copy_bytes(
                    vstd::slice::slice_subrange(line.as_slice(), at + 1, line.len()),
                );
                assert(key@ =~= line@.take(at as int));
                assert(value@ =~= line@.skip(at + 1));
                file.update(key.as_slice(), value.as_slice());
            }
            i += 1;
        }
        assert(all.take(lines.len() as int) =~= all);
        file
    }

    /// The value of the key, if the file holds the key.
    pub fn get(&self, key: &[u8]) -> (value: Option<&Vec<u8>>)
        ensures
            match value {
                Some(v) => lookup(self@, key@) == Some(v@),
                None => lookup(self@, key@) is None,
            },
    {
        let mut i: usize = 0;
        while i < self.store.len()
            invariant
                0 <= i <= self.store.len(),
                forall|k: int| 0 <= k < i ==> (#[trigger] self@[k]).0 != key@,
            decreases self.store.len() - i,
        {
            if bytes_eq(self.store[i].key.as_slice(), key) {
                proof {
                    lemma_position(self@, key@, i as int);
                }
                return Some(&self.store[i].value);
            }
            i += 1;
        }
        proof {
            lemma_position(self@, key@, self.store.len() as int);
        }
        None
    }

    /// Sets the value of the key: in place where the file holds the key
    /// already, at the end where the key is new.
    pub fn update(&mut self, key: &[u8], value: &[u8])
        ensures
            final(self)@ == put(old(self)@, key@, value@),
            distinct_keys(old(self)@) ==> distinct_keys(final(self)@),
    {
        proof {
            if distinct_keys(self@) {
                lemma_put_keeps_distinct(self@, key@, value@);
            }
        }
        let mut i: usize = 0;
        while i < self.store.len()
            invariant
                0 <= i <= self.store.len(),
                self.store@ == old(self).store@,
                self@ == old(self)@,
                forall|k: int| 0 <= k < i ==> (#[trigger] self@[k]).0 != key@,
            decreases self.store.len() - i,
        {
            if bytes_eq(self.store[i].key.as_slice(), key) {
                proof {
                    lemma_position(self@, key@, i as int);
                    if distinct_keys(self@) {
                        lemma_put_keeps_distinct(self@, key@, value@);
                    }
                }
                let entry = Entry { key: copy_bytes(key), value: copy_bytes(value) };
                self.store.set(i, entry);
                assert(self@ =~= old(self)@.update(i as int, (key@, value@)));
                return ;
            }
            i += 1;
        }
        proof {
            lemma_position(self@, key@, self.store.len() as int);
        }
        self.store.push(Entry { key: copy_bytes(key), value: copy_bytes(value) });
        assert(self@ =~= old(self)@.push((key@, value@)));
    }

    /// The bytes of the file: for each key, in order, the key, `=`, the
    /// value and the end of line.
    pub fn write(&self) -> (data: Vec<u8>)
        ensures
            data@ == render(self@),
    {
        let mut data: Vec<u8> = Vec::new();
        let mut i: usize = 0;
        assert(self@.take(0) =~= Seq::empty());
        while i < self.store.len()
            invariant
                0 <= i <= self.store.len(),
                data@ == render(self@.take(i as int)),
            decreases self.store.len() - i,
        {
            let ghost before = data@;
            push_bytes(&mut data, self.store[i].key.as_slice());
            data.push(EQUALS);
            push_bytes(&mut data, self.store[i].value.as_slice());
            data.push(NEWLINE);
            proof {
                assert(self@.take(i + 1).drop_last() =~= self@.take(i as int));
                assert(self@.take(i + 1).last() == self@[i as int]);
                assert(data@ =~= before + line_of(self@[i as int]) + seq![NEWLINE]);
            }
            i += 1;
        }
        assert(self@.take(self.store.len() as int) =~= self@);
        data
    }
}

} // verus!
