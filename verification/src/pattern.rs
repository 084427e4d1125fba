//! The pattern compiler: one composite expression out of the ignore pattern
//! and the token types, in their order.

use crate::engine::{escaped, regex_captures, regex_compiles, regex_group_count};
use vstd::prelude::*;

verus! {

/// The names that a list of token types denotes.
pub open spec fn names(token_types: Seq<&str>) -> Seq<Seq<char>> {
    token_types.map_values(|name: &str| name@)
}

/// The explicit patterns of a configuration, by token type name.
pub open spec fn overrides(patterns: Map<Seq<char>, String>) -> Map<Seq<char>, Seq<char>> {
    patterns.map_values(|pattern: String| pattern@)
}

/// The pattern of the token type `name`: its explicit pattern where it has
/// one, else its name taken literally.
pub open spec fn fragment(overrides: Map<Seq<char>, Seq<char>>, name: Seq<char>) -> Seq<char> {
    if overrides.contains_key(name) {
        overrides[name]
    } else {
        escaped(name)
    }
}

/// One alternative `|(pattern)` for each token type, in order.
pub open spec fn alternatives(overrides: Map<Seq<char>, Seq<char>>, names: Seq<Seq<char>>) -> Seq<
    char,
>
    decreases names.len(),
{
    if names.len() == 0 {
        Seq::empty()
    } else {
        alternatives(overrides, names.drop_last()) + "|("@ + fragment(overrides, names.last())
            + ")"@
    }
}

/// The composite expression: anchored at the start, the ignore pattern as
/// the first capture group, then each token type's pattern as a group of its
/// own.
pub open spec fn composite_pattern(
    ignore: Seq<char>,
    overrides: Map<Seq<char>, Seq<char>>,
    names: Seq<Seq<char>>,
) -> Seq<char> {
    "^(?:("@ + ignore + ")"@ + alternatives(overrides, names) + ")"@
}

/// The number of capture groups inside `pattern`, the whole match not
/// counted.
pub open spec fn inner_groups(pattern: Seq<char>) -> nat {
    if regex_group_count(pattern) >= 1 {
        (regex_group_count(pattern) - 1) as nat
    } else {
        0
    }
}

/// The number of capture groups in the alternative of the token type `name`:
/// the group around it, and those inside its explicit pattern where it has
/// one. A name taken literally holds none.
pub open spec fn groups_of(overrides: Map<Seq<char>, Seq<char>>, name: Seq<char>) -> nat {
    if overrides.contains_key(name) {
        1 + inner_groups(overrides[name])
    } else {
        1
    }
}

/// The number of capture groups in the composite expression for the token
/// types `names`: the whole match, the ignore pattern's alternative, and each
/// token type's.
pub open spec fn group_total(
    ignore: Seq<char>,
    overrides: Map<Seq<char>, Seq<char>>,
    names: Seq<Seq<char>>,
) -> nat
    decreases names.len(),
{
    if names.len() == 0 {
        2 + inner_groups(ignore)
    } else {
        group_total(ignore, overrides, names.drop_last()) + groups_of(overrides, names.last())
    }
}

/// For each token type, the index of the capture group around its
/// alternative in the composite expression. Groups are numbered by their
/// opening bracket, so a token type's group comes behind all groups of the
/// ignore pattern and of the token types before it.
pub open spec fn group_table(
    ignore: Seq<char>,
    overrides: Map<Seq<char>, Seq<char>>,
    names: Seq<Seq<char>>,
) -> Seq<int> {
    Seq::new(names.len(), |k: int| group_total(ignore, overrides, names.take(k)) as int)
}

/// A token type's group lies behind group 1, the ignore pattern's, and
/// behind the group of every token type declared before it.
pub proof fn lemma_group_table_increases(
    ignore: Seq<char>,
    overrides: Map<Seq<char>, Seq<char>>,
    names: Seq<Seq<char>>,
    earlier: int,
    later: int,
)
    requires
        0 <= earlier < later < names.len(),
    ensures
        2 <= group_table(ignore, overrides, names)[earlier] < group_table(
            ignore,
            overrides,
            names,
        )[later],
    decreases later - earlier,
{
    let step = names.take(earlier + 1);
    assert(step.drop_last() =~= names.take(earlier));
    lemma_group_total_at_least_two(ignore, overrides, names.take(earlier));
    if earlier + 1 < later {
        lemma_group_table_increases(ignore, overrides, names, earlier + 1, later);
    }
}

/// The composite expression holds at least the whole match and the ignore
/// pattern's alternative.
pub proof fn lemma_group_total_at_least_two(
    ignore: Seq<char>,
    overrides: Map<Seq<char>, Seq<char>>,
    names: Seq<Seq<char>>,
)
    ensures
        group_total(ignore, overrides, names) >= 2,
    decreases names.len(),
{
    if names.len() > 0 {
        lemma_group_total_at_least_two(ignore, overrides, names.drop_last());
    }
}

/// The first explicit pattern, among those of the token types from index
/// `from` on, that the engine does not accept.
pub open spec fn first_invalid_override(
    overrides: Map<Seq<char>, Seq<char>>,
    names: Seq<Seq<char>>,
    from: nat,
) -> Option<Seq<char>>
    decreases names.len() - from,
{
    if from >= names.len() {
        None
    } else if overrides.contains_key(names[from as int]) && !regex_compiles(
        overrides[names[from as int]],
    ) {
        Some(overrides[names[from as int]])
    } else {
        first_invalid_override(overrides, names, from + 1)
    }
}

/// Whether `pattern` matches the empty text, and so can match without
/// consuming anything.
pub open spec fn matches_empty(pattern: Seq<char>) -> bool {
    regex_captures(pattern, Seq::empty()) is Some
}

/// The pattern on which a configuration fails, if it does. The ignore
/// pattern and each explicit pattern of a listed token type must be
/// patterns in their own right. The composite expression must be one, must
/// hold the capture groups of its parts and no others, and must not match
/// the empty text. The first that fails, in this order, is the one reported.
pub open spec fn config_fault(
    ignore: Seq<char>,
    overrides: Map<Seq<char>, Seq<char>>,
    names: Seq<Seq<char>>,
) -> Option<Seq<char>> {
    let composite = composite_pattern(ignore, overrides, names);
    if !regex_compiles(ignore) {
        Some(ignore)
    } else if first_invalid_override(overrides, names, 0) is Some {
        first_invalid_override(overrides, names, 0)
    } else if !regex_compiles(composite) || regex_group_count(composite) != group_total(
        ignore,
        overrides,
        names,
    ) || matches_empty(composite) {
        Some(composite)
    } else {
        None
    }
}

} // verus!
