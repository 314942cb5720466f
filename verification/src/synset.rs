//! Synset nodes and the parser of the hierarchy text.

use crate::class::ObjectClass;
use crate::error::IndexError;
use crate::hierarchy::{
    alias_list, any_faulty, class_above, enclosing_entry, faulty, lines_from, lines_of, nodes_upto,
    read_line, synset_outcome, Line, SynsetNodeView,
};
use crate::synset_map::SynsetMap;
use crate::text::{chars_of, find, skip, string_from_chars, strings_view, trim};
use vstd::prelude::*;

verus! {

/// One node of the synset hierarchy.
#[derive(Debug, Clone, PartialEq, Eq, Hash)]
pub struct SynsetNode {
    /// The identifier of the synset, by which the node is found.
    pub synset_id: String,
    /// The class under whose header the node stands.
    pub object_class: ObjectClass,
    /// The identifier of the parent, if the node has one.
    pub synset_base_id: Option<String>,
    /// The names of the synset.
    pub aliases: Vec<String>,
}

impl View for SynsetNode {
    type V = SynsetNodeView;

    open spec fn view(&self) -> SynsetNodeView {
        SynsetNodeView {
            synset_id: self.synset_id@,
            object_class: self.object_class,
            synset_base_id: match self.synset_base_id {
                Some(id) => Some(id@),
                None => None,
            },
            aliases: strings_view(self.aliases@),
        }
    }
}

/// One line of a hierarchy text, read.
#[derive(Debug, Clone, PartialEq, Eq)]
pub enum ParsedLine {
    /// Nothing but white space.
    Blank,
    /// The label of a class.
    Header(ObjectClass),
    /// A line without leading dash that is no class label.
    UnknownHeader,
    /// Dashes, an identifier, a colon and aliases.
    Entry { depth: usize, id: String, aliases: Vec<String> },
    /// Dashes with no colon after them.
    Malformed,
}

impl View for ParsedLine {
    type V = Line;

    open spec fn view(&self) -> Line {
        match self {
            ParsedLine::Blank => Line::Blank,
            ParsedLine::Header(c) => Line::Header(*c),
            ParsedLine::UnknownHeader => Line::UnknownHeader,
            ParsedLine::Entry { depth, id, aliases } => Line::Entry {
                depth: *depth as int,
                id: id@,
                aliases: strings_view(aliases@),
            },
            ParsedLine::Malformed => Line::Malformed,
        }
    }
}

/// Splits the rest of an entry line, from `start` on, into its aliases.
fn split_aliases(s: &[char], start: usize) -> (r: Vec<String>)
    requires
        start <= s@.len(),
    ensures
        strings_view(r@) == alias_list(s@, start as int),
{
    let mut out: Vec<String> = Vec::new();
    let mut pos: usize = start;
    loop
        invariant
            pos <= s@.len(),
            alias_list(s@, start as int) == strings_view(out@) + alias_list(s@, pos as int),
        decreases s@.len() - pos,
    {
        let end: usize = find(s, pos, ',');
        let item = string_from_chars(trim(&s[pos..end]));
        let ghost before = out@;
        out.push(item);
        assert(strings_view(out@) =~= strings_view(before) + seq![item@]);
        if end >= s.len() {
            return out;
        }
        pos = end + 1;
    }
}

/// Reads one line, given as characters.
pub fn parse_line_chars(raw: &[char]) -> (r: ParsedLine)
    ensures
        r@ == read_line(raw@),
{
    let line = trim(raw);
    if line.len() == 0 {
        return ParsedLine::Blank;
    }
    if line[0] != '-' {
        let label = string_from_chars(line);
        return match ObjectClass::from_str(label.as_str()) {
            Ok(c) => ParsedLine::Header(c),
            Err(_) => ParsedLine::UnknownHeader,
        };
    }
    let depth: usize = skip(line, 0, '-');
    let colon: usize = find(line, depth, ':');
    if colon >= line.len() {
        return ParsedLine::Malformed;
    }
    let id = string_from_chars(&line[depth..colon]);
    let aliases = split_aliases(line, colon + 1);
    ParsedLine::Entry { depth, id, aliases }
}

/// Reads one line of a hierarchy text.
pub fn parse_line(raw: &str) -> (r: ParsedLine)
    ensures
        r@ == read_line(raw@),
{
    let chars = chars_of(raw);
    parse_line_chars(chars.as_slice())
}

/// The identifier on top of the stack of open entries once everything at
/// depth `depth` or deeper is taken off it.
spec fn stack_parent(stack: Seq<(usize, String)>, depth: int) -> Option<Seq<char>>
    decreases stack.len(),
{
    if stack.len() == 0 {
        None
    } else if stack.last().0 < depth {
        Some(stack.last().1@)
    } else {
        stack_parent(stack.drop_last(), depth)
    }
}

/// Takes the entries at depth `depth` or deeper off the stack, and returns
/// the identifier that is then on top.
fn close_entries(stack: &mut Vec<(usize, String)>, depth: usize) -> (r: Option<String>)
    ensures
        forall|d: int|
            d <= depth ==> stack_parent(final(stack)@, d) == stack_parent(old(stack)@, d),
        final(stack)@.len() > 0 ==> final(stack)@.last().0 < depth,
        match r {
            Some(id) => Some(id@),
            None => None,
        } == stack_parent(old(stack)@, depth as int),
{
    while stack.len() > 0 && stack[stack.len() - 1].0 >= depth
        invariant
            forall|d: int| d <= depth ==> stack_parent(stack@, d) == stack_parent(old(stack)@, d),
        decreases stack@.len(),
    {
        let ghost before = stack@;
        stack.pop();
        assert(stack@ =~= before.drop_last());
    }
    if stack.len() > 0 {
        Some(stack[stack.len() - 1].1.clone())
    } else {
        None
    }
}

/// Parses a synset hierarchy text into its nodes, by identifier.
///
/// Blank lines are passed over. The text is refused where a line without
/// leading dash is no class label, where a dash line holds no colon, and where
/// a dash line comes before any class header.
pub fn parse_synset_map(text: &str) -> (r: Result<SynsetMap, IndexError>)
    ensures
        match r {
            Ok(map) => map.wf() && synset_outcome(text@) == Ok::<_, IndexError>(map@),
            Err(e) => synset_outcome(text@) == Err::<Map<Seq<char>, SynsetNodeView>, _>(e),
        },
{
    let chars = chars_of(text);
    let t = chars.as_slice();
    let n: usize = t.len();
    let ghost lines = lines_of(text@);

    let mut map = SynsetMap::new();
    let mut class: Option<ObjectClass> = None;
    let mut stack: Vec<(usize, String)> = Vec::new();
    let mut pos: usize = 0;
    let ghost mut k: int = 0;

    while pos < n
        invariant
            t@ == text@,
            n == t@.len(),
            lines == lines_of(text@),
            pos <= n,
            0 <= k <= lines.len(),
            lines_from(text@, pos as int) == lines.subrange(k, lines.len() as int),
            !any_faulty(lines, k),
            map.wf(),
            map@ == nodes_upto(lines, k),
            class == class_above(lines, k),
            forall|d: int| enclosing_entry(lines, k - 1, d) == stack_parent(stack@, d),
        decreases n - pos,
    {
        let end: usize = find(t, pos, '\n');
        let line = parse_line_chars(&t[pos..end]);
        proof {
            let rest = lines.subrange(k, lines.len() as int);
            assert(rest.len() > 0);
            assert(rest[0] == line@);
            assert(lines[k] == line@);
            if end < n {
                assert(lines_from(text@, end + 1) =~= rest.subrange(1, rest.len() as int));
                assert(lines_from(text@, end + 1) =~= lines.subrange(k + 1, lines.len() as int));
            } else {
                assert(rest.len() == 1);
                assert(lines_from(text@, n as int) =~= lines.subrange(k + 1, lines.len() as int));
            }
        }
        match line {
            ParsedLine::Blank => {},
            ParsedLine::Header(c) => {
                class = Some(c);
                stack.clear();
            },
            ParsedLine::UnknownHeader => {
                assert(faulty(lines, k));
                return Err(IndexError::ParseError);
            },
            ParsedLine::Malformed => {
                assert(faulty(lines, k));
                return Err(IndexError::ParseError);
            },
            ParsedLine::Entry { depth, id, aliases } => {
                let object_class = match class {
                    Some(c) => c,
                    None => {
                        assert(faulty(lines, k));
                        return Err(IndexError::ParseError);
                    },
                };
                let synset_base_id = close_entries(&mut stack, depth);
                let ghost open = stack@;
                stack.push((depth, id.clone()));
                proof {
                    assert(stack@.drop_last() =~= open);
                    assert forall|d: int| enclosing_entry(lines, k, d) == stack_parent(
                        stack@,
                        d,
                    ) by {
                        if d <= depth {
                            assert(stack_parent(stack@, d) == stack_parent(open, d));
                        }
                    }
                }
                let key = id.clone();
                let node = SynsetNode { synset_id: id, object_class, synset_base_id, aliases };
                map.insert(key, node);
            },
        }
        proof {
            assert(!faulty(lines, k));
            k = k + 1;
        }
        pos = if end < n {
            end + 1
        } else {
            n
        };
    }
    proof {
        assert(k == lines.len());
    }
    Ok(map)
}

} // verus!
