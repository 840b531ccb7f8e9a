use vstd::prelude::*;

verus! {

/// The byte strings that `strings` refers to.
pub open spec fn spec_strings(strings: Seq<&[u8]>) -> Seq<Seq<u8>> {
    strings.map_values(|string: &[u8]| string@)
}

/// Reading strings keeps every one of them, empty ones included, in order
/// and byte for byte.
pub proof fn lemma_strings_each(strings: Seq<&[u8]>)
    ensures
        spec_strings(strings).len() == strings.len(),
        forall|i: int| 0 <= i < strings.len() ==> #[trigger] spec_strings(strings)[i] == strings[i]@,
{
}

/// The command-line arguments of the process that are still to be read,
/// each as its bytes without the terminating NUL.
#[derive(Clone, Copy)]
pub struct Args<'a> {
    remaining: &'a [&'a [u8]],
}

impl<'a> Args<'a> {
    /// The arguments still to be read, in order.
    pub closed spec fn view(&self) -> Seq<Seq<u8>> {
        spec_strings(self.remaining@)
    }

    /// Arguments over the given strings.
    pub fn new(arguments: &'a [&'a [u8]]) -> (args: Self)
        ensures
            args@ == spec_strings(arguments@),
            args@.len() == arguments@.len(),
            forall|i: int| 0 <= i < arguments@.len() ==> #[trigger] args@[i] == arguments@[i]@,
    {
        proof {
            lemma_strings_each(arguments@);
        }
        Args { remaining: arguments }
    }

    /// How many arguments are still to be read.
    pub fn len(&self) -> (count: usize)
        ensures
            count == self@.len(),
    {
        self.remaining.len()
    }

    /// Takes the next argument, or `None` when all have been read.
    pub fn next(&mut self) -> (argument: Option<&'a [u8]>)
        ensures
            old(self)@.len() == 0 ==> argument is None && final(self)@ == old(self)@,
            old(self)@.len() > 0 ==> (argument matches Some(value) && value@ == old(self)@[0]
                && final(self)@ == old(self)@.drop_first()),
    {
        let count = self.remaining.len();
        if count == 0 {
            return None;
        }
        let value = self.remaining[0];
        let ghost before = self.remaining@;
        self.remaining = vstd::slice::slice_subrange(self.remaining, 1, count);
        assert(spec_strings(self.remaining@) =~= spec_strings(before).drop_first());
        Some(value)
    }
}


/// The byte `=`, which separates a variable's name from its value.
pub const SEPARATOR: u8 = 61;

/// `entry` defines the variable `name`: it reads `name`, `=`, value, and
/// `name` holds no `=` (so the entry's first `=` ends the name).
pub open spec fn spec_defines(entry: Seq<u8>, name: Seq<u8>) -> bool {
    &&& name.len() < entry.len()
    &&& entry.take(name.len() as int) == name
    &&& entry[name.len() as int] == SEPARATOR
    &&& !name.contains(SEPARATOR)
}

/// The value of the first entry of `entries` that defines `name`.
pub open spec fn spec_lookup(entries: Seq<Seq<u8>>, name: Seq<u8>) -> Option<Seq<u8>>
    decreases entries.len(),
{
    if entries.len() == 0 {
        None
    } else if spec_defines(entries[0], name) {
        Some(entries[0].skip(name.len() as int + 1))
    } else {
        spec_lookup(entries.drop_first(), name)
    }
}

/// The environment entries of the process that are still to be read, each as
/// its bytes (`NAME=value`) without the terminating NUL.
#[derive(Clone, Copy)]
pub struct Env<'a> {
    remaining: &'a [&'a [u8]],
}

/// Whether two byte strings are equal.
fn bytes_equal(left: &[u8], right: &[u8]) -> (equal: bool)
    ensures
        equal == (left@ == right@),
{
    if left.len() != right.len() {
        return false;
    }
    let mut offset: usize = 0;
    while offset < left.len()
        invariant
            left@.len() == right@.len(),
            offset <= left@.len(),
            forall|i: int| 0 <= i < offset ==> left@[i] == right@[i],
        decreases left@.len() - offset,
    {
        if left[offset] != right[offset] {
            return false;
        }
        offset = offset + 1;
    }
    assert(left@ =~= right@);
    true
}

/// The position of the first `=` in `entry`, if there is one.
fn separator_position(entry: &[u8]) -> (position: Option<usize>)
    ensures
        position matches Some(at) ==> at < entry@.len() && entry@[at as int] == SEPARATOR
            && !entry@.take(at as int).contains(SEPARATOR),
        position is None ==> !entry@.contains(SEPARATOR),
{
    let mut offset: usize = 0;
    while offset < entry.len()
        invariant
            offset <= entry@.len(),
            forall|i: int| 0 <= i < offset ==> entry@[i] != SEPARATOR,
        decreases entry@.len() - offset,
    {
        if entry[offset] == SEPARATOR {
            return Some(offset);
        }
        offset = offset + 1;
    }
    None
}

/// The value that `entry` gives `name`, if the entry defines it.
fn entry_value<'b>(entry: &'b [u8], name: &[u8]) -> (value: Option<&'b [u8]>)
    ensures
        value is Some <==> spec_defines(entry@, name@),
        value matches Some(v) ==> v@ == entry@.skip(name@.len() as int + 1),
{
    match separator_position(entry) {
        None => {
            proof {
                if spec_defines(entry@, name@) {
                    assert(entry@.contains(SEPARATOR)) by {
                        assert(entry@[name@.len() as int] == SEPARATOR);
                    }
                }
            }
            None
        },
        Some(at) => {
            let key = vstd::slice::slice_subrange(entry, 0, at);
            if bytes_equal(key, name) {
                assert(key@ =~= entry@.take(at as int));
                let length = entry.len();
                let value = vstd::slice::slice_subrange(entry, at + 1, length);
                assert(value@ =~= entry@.skip(name@.len() as int + 1));
                Some(value)
            } else {
                proof {
                    if spec_defines(entry@, name@) {
                        let n = name@.len() as int;
                        if n < at {
                            assert(entry@.take(at as int)[n] == SEPARATOR);
                        } else if at < n {
                            assert(name@[at as int] == entry@[at as int]);
                        } else {
                            assert(key@ =~= name@);
                        }
                    }
                }
                None
            }
        },
    }
}

impl<'a> Env<'a> {
    /// The entries still to be read, in order.
    pub closed spec fn view(&self) -> Seq<Seq<u8>> {
        spec_strings(self.remaining@)
    }

    /// An environment over the given entries.
    pub fn new(entries: &'a [&'a [u8]]) -> (env: Self)
        ensures
            env@ == spec_strings(entries@),
            env@.len() == entries@.len(),
            forall|i: int| 0 <= i < entries@.len() ==> #[trigger] env@[i] == entries@[i]@,
    {
        proof {
            lemma_strings_each(entries@);
        }
        Env { remaining: entries }
    }

    /// Takes the next entry, or `None` when all have been read.
    pub fn next(&mut self) -> (entry: Option<&'a [u8]>)
        ensures
            old(self)@.len() == 0 ==> entry is None && final(self)@ == old(self)@,
            old(self)@.len() > 0 ==> (entry matches Some(value) && value@ == old(self)@[0]
                && final(self)@ == old(self)@.drop_first()),
    {
        let count = self.remaining.len();
        if count == 0 {
            return None;
        }
        let value = self.remaining[0];
        let ghost before = self.remaining@;
        self.remaining = vstd::slice::slice_subrange(self.remaining, 1, count);
        assert(spec_strings(self.remaining@) =~= spec_strings(before).drop_first());
        Some(value)
    }

    /// The value of the variable `name`: what follows the first `=` of the
    /// first remaining entry whose text before that `=` is `name`.
    pub fn get(self, name: &[u8]) -> (value: Option<&'a [u8]>)
        ensures
            value is None <==> spec_lookup(self@, name@) is None,
            value matches Some(v) ==> spec_lookup(self@, name@) == Some(v@),
    {
        let mut rest = self;
        loop
            invariant
                spec_lookup(self@, name@) == spec_lookup(rest@, name@),
            decreases rest@.len(),
        {
            match rest.next() {
                None => {
                    return None;
                },
                Some(entry) => {
                    if let Some(found) = entry_value(entry, name) {
                        return Some(found);
                    }
                },
            }
        }
    }
}

/// The entry that defines `name` as `value`.
pub open spec fn spec_entry(name: Seq<u8>, value: Seq<u8>) -> Seq<u8> {
    name + seq![SEPARATOR] + value
}

/// No variable has a name that holds `=`: looking one up finds nothing.
pub proof fn lemma_lookup_separator_in_name(entries: Seq<Seq<u8>>, name: Seq<u8>)
    requires
        name.contains(SEPARATOR),
    ensures
        spec_lookup(entries, name) is None,
    decreases entries.len(),
{
    if entries.len() > 0 {
        lemma_lookup_separator_in_name(entries.drop_first(), name);
    }
}

/// An environment whose first entry is `name=value` gives `name` the value
/// `value`, whatever follows, when `name` holds no `=`.
pub proof fn lemma_lookup_first_entry(
    name: Seq<u8>,
    value: Seq<u8>,
    rest: Seq<Seq<u8>>,
)
    requires
        !name.contains(SEPARATOR),
    ensures
        spec_lookup(seq![spec_entry(name, value)] + rest, name) == Some(value),
{
    let entries = seq![spec_entry(name, value)] + rest;
    let entry = spec_entry(name, value);
    assert(entries[0] == entry);
    assert(entry.take(name.len() as int) =~= name);
    assert(entry[name.len() as int] == SEPARATOR);
    assert(entry.skip(name.len() as int + 1) =~= value);
}

/// A value that is found comes from an entry that reads `name=value`.
pub proof fn lemma_lookup_found_entry(entries: Seq<Seq<u8>>, name: Seq<u8>)
    requires
        spec_lookup(entries, name) is Some,
    ensures
        exists|i: int|
            0 <= i < entries.len() && entries[i] == spec_entry(
                name,
                spec_lookup(entries, name).unwrap(),
            ),
    decreases entries.len(),
{
    if spec_defines(entries[0], name) {
        let entry = entries[0];
        let value = entry.skip(name.len() as int + 1);
        assert(entry =~= spec_entry(name, value)) by {
            assert(entry.take(name.len() as int) == name);
            assert forall|i: int| 0 <= i < entry.len() implies entry[i] == spec_entry(name, value)[i] by {
                if i < name.len() {
                    assert(entry.take(name.len() as int)[i] == entry[i]);
                }
            }
        }
        assert(entries[0] == spec_entry(name, spec_lookup(entries, name).unwrap()));
    } else {
        lemma_lookup_found_entry(entries.drop_first(), name);
        let i = choose|i: int|
            0 <= i < entries.drop_first().len() && entries.drop_first()[i] == spec_entry(
                name,
                spec_lookup(entries.drop_first(), name).unwrap(),
            );
        assert(entries[i + 1] == entries.drop_first()[i]);
    }
}

/// The first definition wins: entries appended after one that defines
/// `name` do not change its value.
pub proof fn lemma_lookup_first_wins(
    entries: Seq<Seq<u8>>,
    more: Seq<Seq<u8>>,
    name: Seq<u8>,
)
    requires
        spec_lookup(entries, name) is Some,
    ensures
        spec_lookup(entries + more, name) == spec_lookup(entries, name),
    decreases entries.len(),
{
    assert((entries + more)[0] == entries[0]);
    if !spec_defines(entries[0], name) {
        assert((entries + more).drop_first() =~= entries.drop_first() + more);
        lemma_lookup_first_wins(entries.drop_first(), more, name);
    }
}

/// `entry` starts with `name` followed by `=`.
pub open spec fn spec_starts_with_assignment(entry: Seq<u8>, name: Seq<u8>) -> bool {
    name.len() < entry.len() && entry.take(name.len() as int + 1) == name.push(61u8)
}

proof fn lemma_defines_starts_with_assignment(entry: Seq<u8>, name: Seq<u8>)
    ensures
        spec_defines(entry, name) ==> spec_starts_with_assignment(entry, name),
{
    if spec_defines(entry, name) {
        assert(entry.take(name.len() as int + 1) =~= name.push(61u8)) by {
            assert forall|i: int| 0 <= i < name.len() implies entry.take(name.len() as int + 1)[i]
                == name[i] by {
                assert(entry.take(name.len() as int)[i] == entry[i]);
            }
        }
    }
}

/// When the entry at `index` reads `name`, `=`, `value`, `name` holds no `=`,
/// and no earlier entry starts with `name` followed by `=`, the lookup of
/// `name` gives `value`: entries that merely begin with `name` (a longer
/// name such as `LANGUAGE` for `LANG`) or hold no `=` never end the search.
pub proof fn lemma_lookup_first_definition(
    entries: Seq<Seq<u8>>,
    name: Seq<u8>,
    index: int,
    value: Seq<u8>,
)
    requires
        !name.contains(61u8),
        0 <= index < entries.len(),
        entries[index] == name + seq![61u8] + value,
        forall|j: int|
            0 <= j < index ==> !spec_starts_with_assignment(#[trigger] entries[j], name),
    ensures
        spec_lookup(entries, name) == Some(value),
    decreases index,
{
    if index == 0 {
        let entry = entries[0];
        assert(entry.take(name.len() as int) =~= name);
        assert(entry[name.len() as int] == 61u8);
        assert(entry.skip(name.len() as int + 1) =~= value);
    } else {
        lemma_defines_starts_with_assignment(entries[0], name);
        assert(!spec_starts_with_assignment(entries[0], name));
        let rest = entries.drop_first();
        assert forall|j: int| 0 <= j < index - 1 implies !spec_starts_with_assignment(
            #[trigger] rest[j],
            name,
        ) by {
            assert(rest[j] == entries[j + 1]);
        }
        lemma_lookup_first_definition(rest, name, index - 1, value);
    }
}

/// When no entry starts with `name` followed by `=`, the lookup of `name`
/// finds nothing.
pub proof fn lemma_lookup_absent(entries: Seq<Seq<u8>>, name: Seq<u8>)
    requires
        forall|j: int| 0 <= j < entries.len() ==> !spec_starts_with_assignment(#[trigger] entries[j], name),
    ensures
        spec_lookup(entries, name) is None,
    decreases entries.len(),
{
    if entries.len() > 0 {
        lemma_defines_starts_with_assignment(entries[0], name);
        assert(!spec_starts_with_assignment(entries[0], name));
        let rest = entries.drop_first();
        assert forall|j: int| 0 <= j < rest.len() implies !spec_starts_with_assignment(
            #[trigger] rest[j],
            name,
        ) by {
            assert(rest[j] == entries[j + 1]);
        }
        lemma_lookup_absent(rest, name);
    }
}

/// A value that is found is what follows `name` and `=` in the first entry
/// that starts with them.
pub proof fn lemma_lookup_found_first(entries: Seq<Seq<u8>>, name: Seq<u8>)
    requires
        spec_lookup(entries, name) is Some,
    ensures
        exists|index: int|
            0 <= index < entries.len() && #[trigger] entries[index] == name + seq![61u8]
                + spec_lookup(entries, name).unwrap() && forall|j: int|
                0 <= j < index ==> !spec_starts_with_assignment(#[trigger] entries[j], name),
    decreases entries.len(),
{
    let value = spec_lookup(entries, name).unwrap();
    if spec_defines(entries[0], name) {
        let entry = entries[0];
        assert(entry =~= name + seq![61u8] + value) by {
            assert forall|i: int| 0 <= i < name.len() implies entry[i] == name[i] by {
                assert(entry.take(name.len() as int)[i] == entry[i]);
            }
        }
        assert(entries[0] == name + seq![61u8] + value);
    } else {
        let rest = entries.drop_first();
        lemma_lookup_found_first(rest, name);
        let k = choose|index: int|
            0 <= index < rest.len() && #[trigger] rest[index] == name + seq![61u8] + value
                && forall|j: int| 0 <= j < index ==> !spec_starts_with_assignment(#[trigger] rest[j], name);
        assert(entries[k + 1] == rest[k]);
        // The first entry does not define the name; if it started with
        // `name=`, `name` would hold `=` and the later entry could not match.
        if spec_starts_with_assignment(entries[0], name) {
            assert(name.contains(61u8)) by {
                let e = entries[0];
                if !name.contains(61u8) {
                    assert(e.take(name.len() as int) =~= name) by {
                        assert forall|i: int| 0 <= i < name.len() implies e.take(name.len() as int)[i]
                            == name[i] by {
                            assert(e.take(name.len() as int + 1)[i] == e[i]);
                            assert(name.push(61u8)[i] == name[i]);
                        }
                    }
                    assert(e.take(name.len() as int + 1)[name.len() as int] == e[name.len() as int]);
                    assert(name.push(61u8)[name.len() as int] == 61u8);
                }
            }
            let later = rest[k];
            assert(later.take(name.len() as int) =~= name);
            let w = choose|w: int| 0 <= w < name.len() && name[w] == 61u8;
            assert(later[w] == name[w]);
            assert(false) by {
                lemma_lookup_separator_in_name(rest, name);
            }
        }
        assert forall|j: int| 0 <= j < k + 1 implies !spec_starts_with_assignment(
            #[trigger] entries[j],
            name,
        ) by {
            if j > 0 {
                assert(entries[j] == rest[j - 1]);
            }
        }
    }
}

} // verus!

