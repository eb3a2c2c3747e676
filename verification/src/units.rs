//! Byte units and the labels that render a byte count in them.

use vstd::prelude::*;

verus! {

/// One kibibyte, in bytes.
pub const KB: usize = 1024;

/// One mebibyte, in bytes.
pub const MB: usize = 1024 * 1024;

/// One gibibyte, in bytes.
pub const GB: usize = 1024 * 1024 * 1024;

/// The label of a byte count in binary units: the characters that
/// `humansize::format_size` returns for `size` under its `BINARY` options
/// (`"512 B"`, `"1 KiB"`, `"1.50 MiB"`).
///
/// The formatting is done in floating point by the `humansize` crate and is
/// not restated here. The name only records that the label is a function of
/// the size.
pub uninterp spec fn binary_label(size: nat) -> Seq<char>;

/// What a list of entries holds: each size with the characters of its label.
pub open spec fn entries_view(entries: Seq<(usize, String)>) -> Seq<(nat, Seq<char>)> {
    entries.map_values(|e: (usize, String)| (e.0 as nat, e.1@))
}

/// The entries that belong to a sequence of sizes: each size with its binary
/// label.
pub open spec fn labelled(sizes: Seq<nat>) -> Seq<(nat, Seq<char>)> {
    sizes.map_values(|size: nat| (size, binary_label(size)))
}

/// The sizes of a list of entries, without the labels.
pub open spec fn entry_sizes(entries: Seq<(usize, String)>) -> Seq<nat> {
    entries.map_values(|e: (usize, String)| e.0 as nat)
}

/// Entries that are the labelled form of some sizes have exactly those
/// sizes.
pub proof fn lemma_entry_sizes(entries: Seq<(usize, String)>, sizes: Seq<nat>)
    requires
        entries_view(entries) == labelled(sizes),
    ensures
        entry_sizes(entries) == sizes,
{
    assert(entries_view(entries).len() == entries.len());
    assert(labelled(sizes).len() == sizes.len());
    assert forall|i: int| 0 <= i < entries.len() implies entry_sizes(entries)[i] == sizes[i] by {
        assert(entries_view(entries)[i] == labelled(sizes)[i]);
    }
    assert(entry_sizes(entries) =~= sizes);
}

/// Two lists of entries that are the labelled form of the same sizes agree
/// size for size and label for label.
pub proof fn lemma_entries_agree(
    sizes: Seq<nat>,
    first: Seq<(usize, String)>,
    second: Seq<(usize, String)>,
)
    requires
        entries_view(first) == labelled(sizes),
        entries_view(second) == labelled(sizes),
    ensures
        first.len() == second.len(),
        forall|i: int|
            0 <= i < first.len() ==> (#[trigger] first[i]).0 == second[i].0 && first[i].1@
                == second[i].1@,
{
    assert(entries_view(first).len() == first.len());
    assert(entries_view(second).len() == second.len());
    assert forall|i: int| 0 <= i < first.len() implies (#[trigger] first[i]).0 == second[i].0
        && first[i].1@ == second[i].1@ by {
        assert(entries_view(first)[i] == entries_view(second)[i]);
    }
}

/// Renders `size` bytes in binary units.
///
/// Trusted: the body calls `humansize::format_size(size, humansize::BINARY)`.
/// The contract names the result and claims nothing about its characters.
#[verifier::external_body]
pub(crate) fn format_binary(size: usize) -> (label: String)
    ensures
        label@ == binary_label(size as nat),
{
    humansize::format_size(size, humansize::BINARY)
}

} // verus!
