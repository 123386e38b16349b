//! Names: maps keyed by them, and the identifiers that stand for them in a kernel.
use vstd::prelude::*;
use vstd::string::*;

use crate::text::{decimal, same_text};

verus! {

/// The map that a list of entries stands for: of two entries with one name the later counts.
pub open spec fn entries_map<V>(entries: Seq<(String, V)>) -> Map<Seq<char>, V>
    decreases entries.len(),
{
    if entries.len() == 0 {
        Map::empty()
    } else {
        entries_map(entries.drop_last()).insert(entries.last().0@, entries.last().1)
    }
}

proof fn lemma_entries_map<V>(entries: Seq<(String, V)>, name: Seq<char>, from: int)
    requires
        0 <= from <= entries.len(),
        forall|i: int| from <= i < entries.len() ==> (#[trigger] entries[i]).0@ != name,
    ensures
        entries_map(entries).dom().contains(name) == entries_map(entries.take(from)).dom().contains(
            name,
        ),
        entries_map(entries.take(from)).dom().contains(name) ==> entries_map(entries)[name]
            == entries_map(entries.take(from))[name],
    decreases entries.len(),
{
    if from < entries.len() {
        let shorter = entries.drop_last();
        assert(entries[entries.len() - 1].0@ != name);
        assert forall|i: int| from <= i < shorter.len() implies (#[trigger] shorter[i]).0@
            != name by {
            assert(entries[i].0@ != name);
        }
        lemma_entries_map(shorter, name, from);
        assert(shorter.take(from) =~= entries.take(from));
    } else {
        assert(entries.take(from) =~= entries);
    }
}

/// What a map holds under a name.
pub open spec fn lookup<V>(map: Map<Seq<char>, V>, name: Seq<char>) -> Option<V> {
    if map.dom().contains(name) {
        Some(map[name])
    } else {
        None
    }
}

/// A map from names to small values.
#[derive(Debug)]
pub struct NameMap<V> {
    entries: Vec<(String, V)>,
}

impl<V> View for NameMap<V> {
    type V = Map<Seq<char>, V>;

    closed spec fn view(&self) -> Map<Seq<char>, V> {
        entries_map(self.entries@)
    }
}

impl<V: Copy> NameMap<V> {
    pub fn new() -> (map: Self)
        ensures
            map@ == Map::<Seq<char>, V>::empty(),
    {
        NameMap { entries: Vec::new() }
    }

    /// Puts a value under a name, in place of the one that is there.
    pub fn insert(&mut self, name: String, value: V)
        ensures
            final(self)@ == old(self)@.insert(name@, value),
    {
        let ghost before = self.entries@;
        self.entries.push((name, value));
        assert(self.entries@.drop_last() =~= before);
    }

    pub fn get(&self, name: &str) -> (value: Option<V>)
        ensures
            value == lookup(self@, name@),
    {
        let mut index: usize = self.entries.len();
        while index > 0
            invariant
                index <= self.entries@.len(),
                forall|i: int|
                    index <= i < self.entries@.len() ==> (#[trigger] self.entries@[i]).0@ != name@,
            decreases index,
        {
            index -= 1;
            let entry = &self.entries[index];
            if same_text(entry.0.as_str(), name) {
                let value = entry.1;
                proof {
                    let found = self.entries@.take(index + 1);
                    assert(found.drop_last() =~= self.entries@.take(index as int));
                    lemma_entries_map(self.entries@, name@, index + 1);
                }
                return Some(value);
            }
        }
        proof {
            lemma_entries_map(self.entries@, name@, 0);
            assert(self.entries@.take(0).len() == 0);
        }
        None
    }

    pub fn contains(&self, name: &str) -> (found: bool)
        ensures
            found == self@.dom().contains(name@),
    {
        self.get(name).is_some()
    }

    /// A second map with the same entries.
    pub fn duplicate(&self) -> (copy: Self)
        ensures
            copy@ == self@,
    {
        let mut copy: NameMap<V> = NameMap::new();
        let mut index: usize = 0;
        while index < self.entries.len()
            invariant
                index <= self.entries@.len(),
                copy@ == entries_map(self.entries@.take(index as int)),
            decreases self.entries@.len() - index,
        {
            let ghost next = self.entries@.take(index + 1);
            assert(next.drop_last() =~= self.entries@.take(index as int));
            let entry = &self.entries[index];
            copy.insert(entry.0.clone(), entry.1);
            index += 1;
        }
        assert(self.entries@.take(self.entries@.len() as int) =~= self.entries@);
        copy
    }
}

/// Whether a character may stand in an identifier of a kernel.
pub open spec fn identifier_char(character: char) -> bool {
    ||| 'a' <= character <= 'z'
    ||| 'A' <= character <= 'Z'
    ||| '0' <= character <= '9'
    ||| character == '_'
}

/// A name without the prefixes that mark a raw identifier.
pub open spec fn without_raw_prefix(name: Seq<char>) -> Seq<char>
    decreases name.len(),
{
    if name.len() >= 2 && name[0] == 'r' && name[1] == '#' {
        without_raw_prefix(name.skip(2))
    } else {
        name
    }
}

/// A character as it stands in an identifier of a kernel.
pub open spec fn sanitized_char(character: char) -> char {
    if identifier_char(character) {
        character
    } else {
        '_'
    }
}

/// A name as it stands in an identifier of a kernel: without raw prefixes, and with `_` for each
/// character that may not stand there.
pub open spec fn sanitized(name: Seq<char>) -> Seq<char> {
    without_raw_prefix(name).map_values(|character: char| sanitized_char(character))
}

/// The name of a scalar parameter in a kernel.
pub open spec fn scalar_text(name: Seq<char>) -> Seq<char> {
    "__pm_scalar_"@ + sanitized(name)
}

/// The name of a local variable in a kernel.
pub open spec fn local_text(name: Seq<char>) -> Seq<char> {
    "__pm_local_"@ + sanitized(name)
}

/// The name of a loop variable in a kernel.
pub open spec fn loop_text(name: Seq<char>) -> Seq<char> {
    "__pm_loop_"@ + sanitized(name)
}

/// The name of the kernel of a function.
pub open spec fn kernel_text(name: Seq<char>) -> Seq<char> {
    "__pm_kernel_"@ + sanitized(name)
}

/// The name as it stands in an identifier of a kernel.
pub fn sanitize_identifier(identifier: &str) -> (sanitary: String)
    ensures
        sanitary@ == sanitized(identifier@),
{
    let length: usize = identifier.unicode_len();
    let mut start: usize = 0;
    assert(identifier@.skip(0) =~= identifier@);
    while length - start >= 2 && identifier.get_char(start) == 'r' && identifier.get_char(start + 1)
        == '#'
        invariant
            start <= length,
            length == identifier@.len(),
            without_raw_prefix(identifier@) == without_raw_prefix(identifier@.skip(start as int)),
        decreases length - start,
    {
        assert(identifier@.skip(start as int).skip(2) =~= identifier@.skip(start + 2));
        start += 2;
    }
    let ghost stem = identifier@.skip(start as int);
    let mut sanitary = String::new();
    let mut index: usize = start;
    while index < length
        invariant
            start <= index <= length,
            length == identifier@.len(),
            stem == identifier@.skip(start as int),
            sanitary@.len() == index - start,
            forall|i: int|
                0 <= i < index - start ==> #[trigger] sanitary@[i] == sanitized_char(stem[i]),
        decreases length - index,
    {
        let character: char = identifier.get_char(index);
        let keep = ('a' <= character && character <= 'z') || ('A' <= character && character <= 'Z')
            || ('0' <= character && character <= '9') || character == '_';
        sanitary.push(if keep {
            character
        } else {
            '_'
        });
        index += 1;
    }
    assert(sanitary@ =~= sanitized(identifier@));
    sanitary
}

fn prefixed(prefix: &str, identifier: &str) -> (text: String)
    ensures
        text@ == prefix@ + sanitized(identifier@),
{
    let mut text = String::new();
    text.append(prefix);
    text.append(sanitize_identifier(identifier).as_str());
    assert(text@ =~= prefix@ + sanitized(identifier@));
    text
}

pub fn scalar_msl_identifier(identifier: &str) -> (text: String)
    ensures
        text@ == scalar_text(identifier@),
{
    prefixed("__pm_scalar_", identifier)
}

pub fn local_msl_identifier(identifier: &str) -> (text: String)
    ensures
        text@ == local_text(identifier@),
{
    prefixed("__pm_local_", identifier)
}

pub fn loop_msl_identifier(identifier: &str) -> (text: String)
    ensures
        text@ == loop_text(identifier@),
{
    prefixed("__pm_loop_", identifier)
}

pub fn kernel_msl_identifier(identifier: &str) -> (text: String)
    ensures
        text@ == kernel_text(identifier@),
{
    prefixed("__pm_kernel_", identifier)
}

/// A sanitized name holds only ASCII letters, digits and underscores.
pub proof fn law_sanitized_is_an_identifier(name: Seq<char>)
    ensures
        forall|i: int| 0 <= i < sanitized(name).len() ==> #[trigger] identifier_char(
            sanitized(name)[i],
        ),
{
}

/// Sanitizing a name twice is the same as sanitizing it once.
pub proof fn law_sanitizing_is_idempotent(name: Seq<char>)
    ensures
        sanitized(sanitized(name)) == sanitized(name),
{
    let once = sanitized(name);
    law_sanitized_is_an_identifier(name);
    if once.len() >= 2 {
        assert(identifier_char(once[1]));
    }
    assert(without_raw_prefix(once) == once);
    assert forall|i: int| 0 <= i < once.len() implies sanitized_char(#[trigger] once[i])
        == once[i] by {
        assert(identifier_char(once[i]));
    }
    assert(sanitized(once) =~= once);
}

/// A name of ASCII letters, digits and underscores is left as it is.
pub proof fn law_plain_names_are_kept(name: Seq<char>)
    requires
        forall|i: int| 0 <= i < name.len() ==> #[trigger] identifier_char(name[i]),
    ensures
        sanitized(name) == name,
{
    if name.len() >= 2 {
        assert(identifier_char(name[1]));
    }
    assert forall|i: int| 0 <= i < name.len() implies sanitized_char(#[trigger] name[i])
        == name[i] by {
        assert(identifier_char(name[i]));
    }
    assert(sanitized(name) =~= name);
}

/// The names that every kernel uses for itself.
pub open spec fn reserved(name: Seq<char>) -> bool {
    ||| name == "__pm_out"@
    ||| name == "__pm_count"@
    ||| name == "__pm_extent"@
    ||| name == "__pm_linear"@
    ||| name == "__pm_remaining"@
    ||| exists|index: nat| name == "__pm_in"@ + #[trigger] decimal(index)
    ||| exists|axis: nat| name == "__pm_point"@ + #[trigger] decimal(axis)
    ||| name == "__pm_sum"@
    ||| exists|tensor: nat| name == "__pm_cap"@ + #[trigger] decimal(tensor)
    ||| exists|tensor: nat| name == "__pm_cap"@ + #[trigger] decimal(tensor) + "_extent"@
}

/// The names of scalars, of local variables, of loop variables and of kernels are never the same,
/// and none of them is a name that a kernel uses for itself.
pub proof fn law_kinds_of_names_differ(
    scalar: Seq<char>,
    local: Seq<char>,
    counter: Seq<char>,
    kernel: Seq<char>,
)
    ensures
        scalar_text(scalar) != local_text(local),
        scalar_text(scalar) != loop_text(counter),
        scalar_text(scalar) != kernel_text(kernel),
        local_text(local) != loop_text(counter),
        local_text(local) != kernel_text(kernel),
        loop_text(counter) != kernel_text(kernel),
        !reserved(scalar_text(scalar)),
        !reserved(local_text(local)),
        !reserved(loop_text(counter)),
        !reserved(kernel_text(kernel)),
{
    reveal_strlit("__pm_scalar_");
    reveal_strlit("__pm_local_");
    reveal_strlit("__pm_loop_");
    reveal_strlit("__pm_kernel_");
    reveal_strlit("__pm_out");
    reveal_strlit("__pm_count");
    reveal_strlit("__pm_extent");
    reveal_strlit("__pm_linear");
    reveal_strlit("__pm_remaining");
    reveal_strlit("__pm_in");
    reveal_strlit("__pm_point");
    reveal_strlit("__pm_sum");
    reveal_strlit("__pm_cap");
    assert(scalar_text(scalar)[5] == 's' && scalar_text(scalar)[6] == 'c');
    assert(local_text(local)[5] == 'l' && local_text(local)[6] == 'o' && local_text(local)[7]
        == 'c');
    assert(loop_text(counter)[5] == 'l' && loop_text(counter)[6] == 'o' && loop_text(counter)[7]
        == 'o');
    assert(kernel_text(kernel)[5] == 'k');
    assert("__pm_out"@[5] == 'o');
    assert("__pm_count"@[5] == 'c');
    assert("__pm_extent"@[5] == 'e');
    assert("__pm_linear"@[5] == 'l' && "__pm_linear"@[6] == 'i');
    assert("__pm_remaining"@[5] == 'r');
    assert forall|index: nat| ("__pm_in"@ + #[trigger] decimal(index))[5] == 'i' by {}
    assert forall|axis: nat| ("__pm_point"@ + #[trigger] decimal(axis))[5] == 'p' by {}
    assert("__pm_sum"@[6] == 'u');
    assert forall|tensor: nat| ("__pm_cap"@ + #[trigger] decimal(tensor))[5] == 'c' by {}
    assert forall|tensor: nat|
        ("__pm_cap"@ + #[trigger] decimal(tensor) + "_extent"@)[5] == 'c' by {}
}

/// Whether a name is marked as a raw identifier.
pub open spec fn is_raw(name: Seq<char>) -> bool {
    name.len() >= 2 && name[0] == 'r' && name[1] == '#'
}

/// A name that is not marked as raw keeps its length and its ASCII letters, digits and
/// underscores; every other character becomes an underscore.
pub proof fn law_names_are_sanitized_by_character(name: Seq<char>, i: int)
    requires
        !is_raw(name),
        0 <= i < name.len(),
    ensures
        sanitized(name).len() == name.len(),
        ('a' <= name[i] <= 'z' || 'A' <= name[i] <= 'Z' || '0' <= name[i] <= '9' || name[i] == '_')
            ==> sanitized(name)[i] == name[i],
        !('a' <= name[i] <= 'z' || 'A' <= name[i] <= 'Z' || '0' <= name[i] <= '9' || name[i]
            == '_') ==> sanitized(name)[i] == '_',
{
}

/// A raw identifier is sanitized as the name that it marks.
pub proof fn law_raw_marks_are_dropped(name: Seq<char>)
    ensures
        sanitized("r#"@ + name) == sanitized(name),
{
    reveal_strlit("r#");
    let raw = "r#"@ + name;
    assert(raw[0] == 'r' && raw[1] == '#');
    assert(raw.skip(2) =~= name);
}

/// Two names have one text in a kernel, of whatever kind, only where they are sanitized to the same
/// name.
pub proof fn law_texts_tell_names_apart(left: Seq<char>, right: Seq<char>)
    ensures
        kernel_text(left) == kernel_text(right) ==> sanitized(left) == sanitized(right),
        scalar_text(left) == scalar_text(right) ==> sanitized(left) == sanitized(right),
        local_text(left) == local_text(right) ==> sanitized(left) == sanitized(right),
        loop_text(left) == loop_text(right) ==> sanitized(left) == sanitized(right),
{
    lemma_prefix("__pm_kernel_"@, sanitized(left), sanitized(right));
    lemma_prefix("__pm_scalar_"@, sanitized(left), sanitized(right));
    lemma_prefix("__pm_local_"@, sanitized(left), sanitized(right));
    lemma_prefix("__pm_loop_"@, sanitized(left), sanitized(right));
}

proof fn lemma_prefix(prefix: Seq<char>, left: Seq<char>, right: Seq<char>)
    ensures
        prefix + left == prefix + right ==> left == right,
{
    assert((prefix + left).skip(prefix.len() as int) =~= left);
    assert((prefix + right).skip(prefix.len() as int) =~= right);
}

} // verus!
