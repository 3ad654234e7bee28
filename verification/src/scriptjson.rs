//! The `_TypeInfo` slot addresses out of Il2CppDumper's `script.json`.
//!
//! For every IL2CPP type the compiled binary keeps one global slot holding its
//! `Il2CppClass*`, and `script.json` names them `<Type>_TypeInfo`. That slot is
//! the anchor for everything the client reads about a static class, so this is
//! where signature generation starts. Addresses in this file are RVAs (verified
//! against the game: `PlayerControl_TypeInfo` at 0x2ADC244 is referenced as
//! `ImageBase + 0x2ADC244` throughout the code sections).

use vstd::hash_map::StringHashMap;
use vstd::prelude::*;

use crate::error::{agrees_in_view, Error, ErrorView, Result};
use crate::text::{chars_of, string_of, strip_suffix, without_suffix};

verus! {

/// One entry of `ScriptMetadata`.
#[derive(Debug, Clone)]
pub struct MetadataEntry {
    pub address: u64,
    pub name: String,
}

/// What the entries of `ScriptMetadata` say, as `(address, name)`.
pub open spec fn entry_views(entries: Seq<MetadataEntry>) -> Seq<(u64, Seq<char>)> {
    entries.map_values(|e: MetadataEntry| (e.address, e.name@))
}

/// The slots that the entries give, by type. Generic instantiations produce
/// several entries that differ only in mangling; the first is kept, which is
/// the plain type.
pub open spec fn slots_of(entries: Seq<(u64, Seq<char>)>) -> Map<Seq<char>, u64>
    decreases entries.len(),
{
    if entries.len() == 0 {
        Map::empty()
    } else {
        let before = slots_of(entries.drop_last());
        match strip_suffix(entries.last().1, "_TypeInfo"@) {
            Some(of) => if before.contains_key(of) {
                before
            } else {
                before.insert(of, entries.last().0)
            },
            None => before,
        }
    }
}

/// The table that the entries of a `script.json` give, or the reason why it
/// could not be read.
pub open spec fn table_of(
    parsed: std::result::Result<Seq<(u64, Seq<char>)>, Seq<char>>,
) -> std::result::Result<Map<Seq<char>, u64>, ErrorView> {
    match parsed {
        Err(error) => Err(ErrorView::Malformed("script.json is not readable: "@ + error)),
        Ok(entries) => if slots_of(entries).len() == 0 {
            Err(
                ErrorView::Malformed(
                    "script.json contains no _TypeInfo entries -- was the dumper run with GenerateStruct enabled?"@,
                ),
            )
        } else {
            Ok(slots_of(entries))
        },
    }
}

/// What was read of a `script.json`.
pub open spec fn parsed_view(parsed: std::result::Result<Vec<MetadataEntry>, String>) -> std::result::Result<
    Seq<(u64, Seq<char>)>,
    Seq<char>,
> {
    match parsed {
        Ok(entries) => Ok(entry_views(entries@)),
        Err(error) => Err(error@),
    }
}

pub struct TypeInfoTable {
    slots: StringHashMap<u64>,
}

impl View for TypeInfoTable {
    type V = Map<Seq<char>, u64>;

    closed spec fn view(&self) -> Map<Seq<char>, u64> {
        self.slots@
    }
}

impl Default for TypeInfoTable {
    fn default() -> (r: Self)
        ensures
            r@ == Map::<Seq<char>, u64>::empty(),
    {
        TypeInfoTable { slots: StringHashMap::new() }
    }
}

impl TypeInfoTable {
    /// Builds the table from the `ScriptMetadata` entries of a `script.json`, or
    /// reports why the file could not be read.
    pub fn parse(parsed: std::result::Result<Vec<MetadataEntry>, String>) -> (r: Result<Self>)
        ensures
            agrees_in_view(r, table_of(parsed_view(parsed))),
    {
        broadcast use vstd::hash_map::group_hash_map_axioms;

        let entries: Vec<MetadataEntry> = match parsed {
            Ok(entries) => entries,
            Err(error) => {
                let mut message = "script.json is not readable: ".to_owned();
                message.append(error.as_str());
                return Err(Error::malformed(message));
            },
        };
        let ghost all = entry_views(entries@);
        let mut slots: StringHashMap<u64> = StringHashMap::new();
        for i in 0..entries.len()
            invariant
                all == entry_views(entries@),
                slots@ == slots_of(all.take(i as int)),
        {
            let entry = &entries[i];
            assert(all.take(i + 1).drop_last() =~= all.take(i as int));
            assert(all.take(i + 1).last() == (entry.address, entry.name@));
            let chars: Vec<char> = chars_of(entry.name.as_str());
            if let Some(of) = without_suffix(chars.as_slice(), "_TypeInfo") {
                let key: String = string_of(of);
                if !slots.contains_key(key.as_str()) {
                    slots.insert(key, entry.address);
                }
            }
        }
        assert(all.take(all.len() as int) =~= all);
        if slots.len() == 0 {
            return Err(
                Error::malformed(
                    "script.json contains no _TypeInfo entries -- was the dumper run with GenerateStruct enabled?".to_owned(),
                ),
            );
        }
        Ok(Self { slots })
    }

    /// Slot RVA for a type, e.g. `PlayerControl`.
    pub fn slot(&self, of: &str) -> (r: Option<u64>)
        ensures
            r == (if self@.contains_key(of@) {
                Some(self@[of@])
            } else {
                None
            }),
    {
        match self.slots.get(of) {
            Some(address) => Some(*address),
            None => None,
        }
    }

    pub fn len(&self) -> (r: usize)
        ensures
            r == self@.len(),
    {
        broadcast use vstd::hash_map::group_hash_map_axioms;

        self.slots.len()
    }

    pub fn is_empty(&self) -> (r: bool)
        ensures
            r == (self@.len() == 0),
    {
        self.len() == 0
    }
}

/// Whether an entry names the slot of this type.
pub open spec fn names_slot(entry: (u64, Seq<char>), of: Seq<char>) -> bool {
    strip_suffix(entry.1, "_TypeInfo"@) == Some(of)
}

/// Of several entries for one type the first one wins; what no entry names has
/// no slot.
pub proof fn the_first_entry_wins(entries: Seq<(u64, Seq<char>)>, of: Seq<char>)
    ensures
        slots_of(entries).contains_key(of) <==> exists|i: int|
            0 <= i < entries.len() && names_slot(#[trigger] entries[i], of),
        forall|i: int|
            0 <= i < entries.len() && names_slot(#[trigger] entries[i], of) && (forall|j: int|
                0 <= j < i ==> !names_slot(#[trigger] entries[j], of)) ==> slots_of(entries)[of]
                == entries[i].0,
    decreases entries.len(),
{
    if entries.len() > 0 {
        let shorter = entries.drop_last();
        the_first_entry_wins(shorter, of);
        let last = entries.len() - 1;
        assert forall|i: int| 0 <= i < last implies entries[i] == #[trigger] shorter[i] by {}
        if exists|i: int| 0 <= i < shorter.len() && names_slot(#[trigger] shorter[i], of) {
            let k = choose|i: int|
                0 <= i < shorter.len() && names_slot(#[trigger] shorter[i], of);
            assert(names_slot(entries[k], of));
        }
        assert(names_slot(entries[last], of) || !names_slot(entries[last], of));
        assert forall|i: int|
            0 <= i < entries.len() && names_slot(#[trigger] entries[i], of) && (forall|j: int|
                0 <= j < i ==> !names_slot(#[trigger] entries[j], of)) implies slots_of(entries)[of]
            == entries[i].0 by {
            if i < last {
                assert(names_slot(shorter[i], of));
                assert forall|j: int| 0 <= j < i implies !names_slot(#[trigger] shorter[j], of) by {
                    assert(!names_slot(entries[j], of));
                }
            } else {
                assert forall|j: int| 0 <= j < shorter.len() implies !names_slot(
                    #[trigger] shorter[j],
                    of,
                ) by {
                    assert(!names_slot(entries[j], of));
                }
            }
        }
        if slots_of(entries).contains_key(of) && !slots_of(shorter).contains_key(of) {
            assert(names_slot(entries[last], of));
        }
        if exists|i: int| 0 <= i < entries.len() && names_slot(#[trigger] entries[i], of) {
            let k = choose|i: int|
                0 <= i < entries.len() && names_slot(#[trigger] entries[i], of);
            if k < last {
                assert(names_slot(shorter[k], of));
            }
        }
    }
}

proof fn lemma_slots_finite(entries: Seq<(u64, Seq<char>)>)
    ensures
        slots_of(entries).dom().finite(),
    decreases entries.len(),
{
    if entries.len() > 0 {
        lemma_slots_finite(entries.drop_last());
    }
}

/// A table is made if and only if the file could be read and some entry names a
/// slot.
pub proof fn a_table_needs_a_slot(
    parsed: std::result::Result<Seq<(u64, Seq<char>)>, Seq<char>>,
)
    ensures
        table_of(parsed) is Ok <==> (parsed matches Ok(entries) && exists|i: int, of: Seq<char>|
            0 <= i < entries.len() && #[trigger] names_slot(entries[i], of)),
        table_of(parsed) matches Ok(table) ==> table == slots_of(parsed->Ok_0),
{
    if let Ok(entries) = parsed {
        let slots = slots_of(entries);
        lemma_slots_finite(entries);
        if slots.len() != 0 {
            assert(slots.dom().len() != 0);
            let of = slots.dom().choose();
            assert(slots.contains_key(of));
            the_first_entry_wins(entries, of);
            let i = choose|i: int| 0 <= i < entries.len() && names_slot(#[trigger] entries[i], of);
            assert(names_slot(entries[i], of));
        }
        if exists|i: int, of: Seq<char>|
            0 <= i < entries.len() && #[trigger] names_slot(entries[i], of) {
            let (i, of) = choose|i: int, of: Seq<char>|
                0 <= i < entries.len() && #[trigger] names_slot(entries[i], of);
            the_first_entry_wins(entries, of);
            assert(slots.contains_key(of));
            assert(slots.dom().contains(of));
            if slots.dom().len() == 0 {
                assert(slots.dom() =~= Set::empty());
            }
        }
    }
}

} // verus!
