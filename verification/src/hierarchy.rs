//! What a synset hierarchy text means.
//!
//! The text is read line by line. A line that starts with dashes is an
//! entry: the number of dashes is its depth, an identifier follows up to the
//! first colon, and a comma-separated list of aliases after it. Any other
//! line that is not blank is a class header and opens a new block. An entry
//! belongs to the class of the nearest header above it, and its parent is the
//! nearest entry above it, inside the block, whose depth is smaller.

use crate::class::{class_named, ObjectClass};
use crate::error::IndexError;
use crate::text::{find_char, lemma_find_char, lemma_skip_char, skip_char, trimmed};
use vstd::prelude::*;

verus! {

/// The mathematical value of a synset node.
pub struct SynsetNodeView {
    pub synset_id: Seq<char>,
    pub object_class: ObjectClass,
    pub synset_base_id: Option<Seq<char>>,
    pub aliases: Seq<Seq<char>>,
}

/// One line of the text, as the parser understands it.
pub enum Line {
    /// Nothing but white space.
    Blank,
    /// The label of a class.
    Header(ObjectClass),
    /// A line without leading dash that is no class label.
    UnknownHeader,
    /// Dashes, an identifier, a colon and aliases.
    Entry { depth: int, id: Seq<char>, aliases: Seq<Seq<char>> },
    /// Dashes with no colon after them.
    Malformed,
}

/// The aliases in `s` from `start` on: the pieces between commas, each
/// without the white space at its ends. An empty rest is one empty alias.
pub open spec fn alias_list(s: Seq<char>, start: int) -> Seq<Seq<char>>
    decreases s.len() - start,
    when 0 <= start <= s.len()
    via alias_list_decreases
{
    let end = find_char(s, start, ',');
    let item = trimmed(s.subrange(start, end));
    if end >= s.len() {
        seq![item]
    } else {
        seq![item] + alias_list(s, end + 1)
    }
}

#[via_fn]
proof fn alias_list_decreases(s: Seq<char>, start: int) {
    lemma_find_char(s, start, ',');
}

/// What one raw line of the text says.
pub open spec fn read_line(raw: Seq<char>) -> Line {
    let line = trimmed(raw);
    if line.len() == 0 {
        Line::Blank
    } else if line[0] != '-' {
        match class_named(line) {
            Some(c) => Line::Header(c),
            None => Line::UnknownHeader,
        }
    } else {
        let depth = skip_char(line, 0, '-');
        let colon = find_char(line, depth, ':');
        if colon >= line.len() {
            Line::Malformed
        } else {
            Line::Entry {
                depth,
                id: line.subrange(depth, colon),
                aliases: alias_list(line, colon + 1),
            }
        }
    }
}

/// The lines of `text` from position `start` on. A line ends at a line feed
/// or at the end of the text; nothing follows a final line feed.
pub open spec fn lines_from(text: Seq<char>, start: int) -> Seq<Line>
    decreases text.len() - start,
    when 0 <= start
    via lines_from_decreases
{
    if start >= text.len() {
        Seq::empty()
    } else {
        let end = find_char(text, start, '\n');
        let first = seq![read_line(text.subrange(start, end))];
        if end >= text.len() {
            first
        } else {
            first + lines_from(text, end + 1)
        }
    }
}

#[via_fn]
proof fn lines_from_decreases(text: Seq<char>, start: int) {
    if start < text.len() {
        lemma_find_char(text, start, '\n');
    }
}

/// All lines of `text`.
pub open spec fn lines_of(text: Seq<char>) -> Seq<Line> {
    lines_from(text, 0)
}

/// Depth of a line in the tree: the dash count of an entry, zero for a
/// header.
pub open spec fn level(line: Line) -> int {
    match line {
        Line::Entry { depth, .. } => depth,
        _ => 0,
    }
}

/// Whether the line is part of the tree: a class header or an entry.
pub open spec fn in_tree(line: Line) -> bool {
    line is Header || line is Entry
}

/// The class of the nearest header above line `i`.
pub open spec fn class_above(lines: Seq<Line>, i: int) -> Option<ObjectClass>
    decreases i,
{
    if i <= 0 || i > lines.len() {
        None
    } else {
        match lines[i - 1] {
            Line::Header(c) => Some(c),
            _ => class_above(lines, i - 1),
        }
    }
}

/// The identifier of the nearest entry at or above line `i` whose depth is
/// below `depth`, looking no further up than the nearest header.
pub open spec fn enclosing_entry(lines: Seq<Line>, i: int, depth: int) -> Option<Seq<char>>
    decreases i + 1,
{
    if i < 0 || i >= lines.len() {
        None
    } else {
        match lines[i] {
            Line::Header(_) => None,
            Line::Entry { depth: d, id, .. } => if d < depth {
                Some(id)
            } else {
                enclosing_entry(lines, i - 1, depth)
            },
            _ => enclosing_entry(lines, i - 1, depth),
        }
    }
}

/// The parent of the entry on line `i`.
pub open spec fn parent_of(lines: Seq<Line>, i: int) -> Option<Seq<char>> {
    enclosing_entry(lines, i - 1, level(lines[i]))
}

/// Whether line `i` makes the text unreadable: a header that is no class
/// label, a dash line without colon, or a dash line above which no header
/// stands.
pub open spec fn faulty(lines: Seq<Line>, i: int) -> bool {
    match lines[i] {
        Line::UnknownHeader => true,
        Line::Malformed => true,
        Line::Entry { .. } => class_above(lines, i) is None,
        _ => false,
    }
}

/// Whether some line among the first `n` is faulty.
pub open spec fn any_faulty(lines: Seq<Line>, n: int) -> bool {
    exists|i: int| 0 <= i < n && #[trigger] faulty(lines, i)
}

/// The node that the entry on line `i` stands for.
pub open spec fn node_at(lines: Seq<Line>, i: int) -> SynsetNodeView {
    SynsetNodeView {
        synset_id: lines[i]->id,
        object_class: class_above(lines, i).unwrap(),
        synset_base_id: parent_of(lines, i),
        aliases: lines[i]->aliases,
    }
}

/// The nodes of the first `n` lines by identifier. Where an identifier comes
/// twice, the later line stands.
pub open spec fn nodes_upto(lines: Seq<Line>, n: int) -> Map<Seq<char>, SynsetNodeView>
    decreases n,
{
    if n <= 0 || n > lines.len() {
        Map::empty()
    } else {
        let before = nodes_upto(lines, n - 1);
        match lines[n - 1] {
            Line::Entry { id, .. } => before.insert(id, node_at(lines, n - 1)),
            _ => before,
        }
    }
}

/// What a hierarchy text parses to: the nodes by identifier, or a parse error
/// where any line is faulty.
pub open spec fn synset_outcome(text: Seq<char>) -> Result<
    Map<Seq<char>, SynsetNodeView>,
    IndexError,
> {
    let lines = lines_of(text);
    if any_faulty(lines, lines.len() as int) {
        Err(IndexError::ParseError)
    } else {
        Ok(nodes_upto(lines, lines.len() as int))
    }
}

/// The parent of an entry is the nearest line above it, among headers and
/// entries, whose depth is strictly smaller: the identifier of that line
/// where it is an entry, and none where it is a header.
pub proof fn lemma_parent_is_nearest_shallower(lines: Seq<Line>, i: int, j: int)
    requires
        0 <= j < i < lines.len(),
        lines[i] is Entry,
        level(lines[i]) >= 1,
        in_tree(lines[j]),
        level(lines[j]) < level(lines[i]),
        forall|q: int|
            j < q < i && in_tree(#[trigger] lines[q]) ==> level(lines[q]) >= level(lines[i]),
    ensures
        parent_of(lines, i) == match lines[j] {
            Line::Entry { id, .. } => Some(id),
            _ => None::<Seq<char>>,
        },
{
    lemma_enclosing_entry_skips(lines, i - 1, j, level(lines[i]));
}

/// Looking up from line `i`, lines that are out of the tree or not shallower
/// than `depth` are passed over until line `j`.
proof fn lemma_enclosing_entry_skips(lines: Seq<Line>, i: int, j: int, depth: int)
    requires
        0 <= j <= i < lines.len(),
        forall|q: int| j < q <= i && in_tree(#[trigger] lines[q]) ==> level(lines[q]) >= depth,
        forall|q: int| j < q <= i ==> !(lines[q] is Header),
    ensures
        enclosing_entry(lines, i, depth) == enclosing_entry(lines, j, depth),
    decreases i - j,
{
    if j < i {
        assert(in_tree(lines[i]) ==> level(lines[i]) >= depth);
        lemma_enclosing_entry_skips(lines, i - 1, j, depth);
    }
}

/// An entry read from a text starts with at least one dash, so its depth is
/// at least one.
pub proof fn lemma_entry_depth_positive(raw: Seq<char>)
    ensures
        read_line(raw) is Entry ==> level(read_line(raw)) >= 1,
{
    let line = trimmed(raw);
    if line.len() > 0 && line[0] == '-' {
        lemma_skip_char(line, 0, '-');
        lemma_skip_char(line, 1, '-');
    }
}

/// Every entry among the lines of a text has a depth of at least one.
pub proof fn lemma_entry_levels(text: Seq<char>, start: int, i: int)
    requires
        0 <= start,
        0 <= i < lines_from(text, start).len(),
    ensures
        lines_from(text, start)[i] is Entry ==> level(lines_from(text, start)[i]) >= 1,
    decreases text.len() - start,
{
    if start < text.len() {
        let end = find_char(text, start, '\n');
        lemma_find_char(text, start, '\n');
        lemma_entry_depth_positive(text.subrange(start, end));
        if i > 0 {
            lemma_entry_levels(text, end + 1, i - 1);
        }
    }
}

/// Above a line that no header precedes there is no class.
proof fn lemma_no_header_no_class(lines: Seq<Line>, i: int)
    requires
        0 <= i <= lines.len(),
        forall|j: int| 0 <= j < i ==> !(#[trigger] lines[j] is Header),
    ensures
        class_above(lines, i) is None,
    decreases i,
{
    if i > 0 {
        lemma_no_header_no_class(lines, i - 1);
    }
}

/// A text in which a dash line comes before any class header is refused.
pub proof fn lemma_entry_before_header_fails(text: Seq<char>, i: int)
    requires
        0 <= i < lines_of(text).len(),
        lines_of(text)[i] is Entry || lines_of(text)[i] is Malformed,
        forall|j: int| 0 <= j < i ==> !(#[trigger] lines_of(text)[j] is Header),
    ensures
        synset_outcome(text) == Err::<Map<Seq<char>, SynsetNodeView>, IndexError>(
            IndexError::ParseError,
        ),
{
    let lines = lines_of(text);
    lemma_no_header_no_class(lines, i);
    assert(faulty(lines, i));
}

/// Under an identifier stands the node of the last entry that bears it.
pub proof fn lemma_last_entry_stands(lines: Seq<Line>, n: int, i: int)
    requires
        0 <= i < n <= lines.len(),
        lines[i] is Entry,
        forall|q: int| i < q < n && #[trigger] lines[q] is Entry ==> lines[q]->id != lines[i]->id,
    ensures
        nodes_upto(lines, n).dom().contains(lines[i]->id),
        nodes_upto(lines, n)[lines[i]->id] == node_at(lines, i),
    decreases n,
{
    if i < n - 1 {
        lemma_last_entry_stands(lines, n - 1, i);
    }
}

/// In the mapping that a text parses to, the parent recorded for an entry is
/// the nearest line above it, among headers and entries, whose depth is
/// strictly smaller: that line's identifier where it is an entry, none where
/// it is a header. Here `i` is the last entry with its identifier and `j` that
/// nearest line.
pub proof fn lemma_parsed_parent_is_nearest_shallower(text: Seq<char>, i: int, j: int)
    requires
        synset_outcome(text) is Ok,
        0 <= j < i < lines_of(text).len(),
        lines_of(text)[i] is Entry,
        forall|q: int|
            i < q < lines_of(text).len() && #[trigger] lines_of(text)[q] is Entry ==> lines_of(
                text,
            )[q]->id != lines_of(text)[i]->id,
        in_tree(lines_of(text)[j]),
        level(lines_of(text)[j]) < level(lines_of(text)[i]),
        forall|q: int|
            j < q < i && in_tree(#[trigger] lines_of(text)[q]) ==> level(lines_of(text)[q])
                >= level(lines_of(text)[i]),
    ensures
        synset_outcome(text)->Ok_0.dom().contains(lines_of(text)[i]->id),
        synset_outcome(text)->Ok_0[lines_of(text)[i]->id].synset_base_id == match lines_of(
            text,
        )[j] {
            Line::Entry { id, .. } => Some(id),
            _ => None::<Seq<char>>,
        },
{
    let lines = lines_of(text);
    lemma_entry_levels(text, 0, i);
    lemma_last_entry_stands(lines, lines.len() as int, i);
    lemma_parent_is_nearest_shallower(lines, i, j);
}

/// Below a header, looking up from line `k`, there is a nearest line among
/// headers and entries whose depth is below `depth`.
proof fn lemma_find_shallower(lines: Seq<Line>, k: int, depth: int) -> (j: int)
    requires
        0 <= k <= lines.len(),
        class_above(lines, k) is Some,
        depth >= 1,
    ensures
        0 <= j < k,
        in_tree(lines[j]),
        level(lines[j]) < depth,
        forall|q: int| j < q < k && in_tree(#[trigger] lines[q]) ==> level(lines[q]) >= depth,
    decreases k,
{
    if in_tree(lines[k - 1]) && level(lines[k - 1]) < depth {
        k - 1
    } else {
        lemma_find_shallower(lines, k - 1, depth)
    }
}

/// In a text that parses, every entry has above it a nearest line, among
/// headers and entries, of strictly smaller depth: the line that decides its
/// parent.
pub proof fn lemma_shallower_line_exists(text: Seq<char>, i: int) -> (j: int)
    requires
        synset_outcome(text) is Ok,
        0 <= i < lines_of(text).len(),
        lines_of(text)[i] is Entry,
    ensures
        0 <= j < i,
        in_tree(lines_of(text)[j]),
        level(lines_of(text)[j]) < level(lines_of(text)[i]),
        forall|q: int|
            j < q < i && in_tree(#[trigger] lines_of(text)[q]) ==> level(lines_of(text)[q])
                >= level(lines_of(text)[i]),
{
    let lines = lines_of(text);
    lemma_entry_levels(text, 0, i);
    assert(!faulty(lines, i));
    lemma_find_shallower(lines, i, level(lines[i]))
}

/// Parsing is a function of the text: two mappings read from one text are the
/// same mapping.
pub proof fn lemma_reparse_same_mapping(
    text: Seq<char>,
    first: Map<Seq<char>, SynsetNodeView>,
    second: Map<Seq<char>, SynsetNodeView>,
)
    requires
        synset_outcome(text) == Ok::<_, IndexError>(first),
        synset_outcome(text) == Ok::<_, IndexError>(second),
    ensures
        first == second,
{
}

} // verus!
