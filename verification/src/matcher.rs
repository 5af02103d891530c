//! The pattern-matching engine.
//!
//! A pattern string is compiled, character by character, into an ordered
//! sequence of [`Atom`]s; the engine then scans a text for the first start
//! offset at which every atom succeeds in order (leftmost match, no
//! backtracking).
//!
//! Two deliberate quirks of the pattern language: there is no escape syntax
//! (a literal `^`, `$` or `.` cannot be written), and the anchors are
//! positional — `^` and `$` test the *current* cursor wherever they stand in
//! the atom sequence, not only at the pattern's edges, which diverges from
//! the conventional anchor semantics of regular expressions.

use vstd::prelude::*;

verus! {

/// One compiled matching unit: an anchor, the one-character wildcard, or a
/// literal character.
#[derive(Clone, Copy, PartialEq, Eq, Structural, Debug)]
pub enum Atom {
    /// Succeeds exactly when the cursor is at offset 0; consumes nothing.
    StartAnchor,
    /// Succeeds exactly when the cursor is at the end of the text; consumes
    /// nothing.
    EndAnchor,
    /// Succeeds exactly when a character remains; consumes one character.
    Wildcard,
    /// Succeeds exactly when the given character is next; consumes it.
    Literal(char),
}

/// The fixed, total mapping from one pattern character to its atom.
pub open spec fn atom_of(c: char) -> Atom {
    if c == '^' {
        Atom::StartAnchor
    } else if c == '$' {
        Atom::EndAnchor
    } else if c == '.' {
        Atom::Wildcard
    } else {
        Atom::Literal(c)
    }
}

/// The atom sequence that a whole pattern string compiles to.
pub open spec fn compiled(pattern: Seq<char>) -> Seq<Atom> {
    pattern.map_values(|c: char| atom_of(c))
}

/// Whether `atom` succeeds against `text` with the scan cursor at `cursor`.
pub open spec fn atom_matches(atom: Atom, text: Seq<char>, cursor: int) -> bool {
    match atom {
        Atom::StartAnchor => cursor == 0,
        Atom::EndAnchor => cursor == text.len(),
        Atom::Wildcard => cursor < text.len(),
        Atom::Literal(c) => 0 <= cursor < text.len() && text[cursor] == c,
    }
}

/// How many characters `atom` consumes when it succeeds.
pub open spec fn atom_advance(atom: Atom) -> int {
    match atom {
        Atom::StartAnchor => 0,
        Atom::EndAnchor => 0,
        Atom::Wildcard => 1,
        Atom::Literal(_) => 1,
    }
}

/// Whether one attempt succeeds: every atom, in order, succeeds against
/// `text` starting from `cursor`, each advancing the cursor by what it
/// consumed. An empty atom sequence succeeds vacuously.
pub open spec fn attempt_matches(atoms: Seq<Atom>, text: Seq<char>, cursor: int) -> bool
    decreases atoms.len(),
{
    if atoms.len() == 0 {
        true
    } else {
        atom_matches(atoms[0], text, cursor) && attempt_matches(
            atoms.drop_first(),
            text,
            cursor + atom_advance(atoms[0]),
        )
    }
}

/// Whether some start offset in `0 ..= text.len()` (the end-of-text offset
/// included) yields a successful attempt.
pub open spec fn search_matches(atoms: Seq<Atom>, text: Seq<char>) -> bool {
    exists|s: int| 0 <= s <= text.len() && attempt_matches(atoms, text, s)
}

/// A compiled pattern: an ordered, immutable sequence of atoms whose
/// insertion order is the evaluation order.
pub struct Pattern {
    atoms: Vec<Atom>,
}

impl View for Pattern {
    type V = Seq<Atom>;

    closed spec fn view(&self) -> Seq<Atom> {
        self.atoms@
    }
}

/// Compile a pattern string into its atom sequence. Compilation is total:
/// every character maps to exactly one atom and no input is rejected.
pub fn compile_expr(pattern: &String) -> (p: Pattern)
    ensures
        p@ == compiled(pattern@),
{
    let mut atoms: Vec<Atom> = Vec::new();

    for c in it: pattern.as_str().chars()
        invariant
            atoms@.len() == it.index(),
            forall|j: int| 0 <= j < atoms@.len() ==> atoms@[j] == atom_of(it.seq()[j]),
    {
        let atom = if c == '^' {
            Atom::StartAnchor
        } else if c == '$' {
            Atom::EndAnchor
        } else if c == '.' {
            Atom::Wildcard
        } else {
            Atom::Literal(c)
        };
        atoms.push(atom);
        proof {
            assert(atom == atom_of(c));
            assert(atoms@.len() == it.index() + 1);
            assert(c == it.seq()[it.index()]);
        }
    }
    proof {
        assert(atoms@ =~= compiled(pattern@));
    }
    Pattern { atoms }
}

/// One attempt: walk the whole atom sequence against `string` with the scan
/// cursor starting at `start_pos`, and report whether every atom succeeded
/// in order. The walk aborts at the first failing atom and never retries an
/// earlier one.
pub fn match_substr(pattern: &Pattern, string: &Vec<char>, start_pos: usize) -> (m: bool)
    ensures
        m == attempt_matches(pattern@, string@, start_pos as int),
{
    let mut t: usize = 0;
    let mut i: usize = start_pos;

    proof {
        assert(pattern@.skip(0) =~= pattern@);
    }
    while t < pattern.atoms.len()
        invariant
            t <= pattern@.len(),
            attempt_matches(pattern@, string@, start_pos as int) == attempt_matches(
                pattern@.skip(t as int),
                string@,
                i as int,
            ),
        decreases pattern@.len() - t,
    {
        proof {
            assert(pattern@.skip(t as int)[0] == pattern@[t as int]);
            assert(pattern@.skip(t as int).drop_first() =~= pattern@.skip(t as int + 1));
        }
        let matched: bool;
        match pattern.atoms[t] {
            Atom::StartAnchor => {
                matched = i == 0;
            },
            Atom::EndAnchor => {
                matched = i == string.len();
            },
            Atom::Wildcard => {
                if i < string.len() {
                    matched = true;
                    i = i + 1;
                } else {
                    matched = false;
                }
            },
            Atom::Literal(c) => {
                if i < string.len() && string[i] == c {
                    matched = true;
                    i = i + 1;
                } else {
                    matched = false;
                }
            },
        }
        if !matched {
            return false;
        }
        t = t + 1;
    }
    proof {
        assert(pattern@.skip(t as int) =~= Seq::<Atom>::empty());
    }
    true
}

/// Scan `string` for a match of the compiled pattern: try every start offset
/// in ascending order, from 0 through the text's length inclusive, and report
/// whether some attempt succeeds. The text is measured in code points, not
/// bytes, so a wildcard consumes exactly one code point.
pub fn match_expr(pattern: &Pattern, string: &String) -> (m: bool)
    ensures
        m == search_matches(pattern@, string@),
{
    // O(1) random access by code point, because a string's characters have
    // varying encoded sizes.
    let chars = crate::text::to_chars(string);
    let n = chars.len();
    let mut s: usize = 0;

    loop
        invariant
            s <= n,
            n == string@.len(),
            chars@ == string@,
            forall|k: int| 0 <= k < s ==> !attempt_matches(pattern@, string@, k),
        decreases n - s,
    {
        if match_substr(pattern, &chars, s) {
            proof {
                assert(0 <= s as int <= string@.len() && attempt_matches(
                    pattern@,
                    string@,
                    s as int,
                ));
            }
            return true;
        }
        if s == n {
            proof {
                assert(forall|k: int|
                    0 <= k <= string@.len() ==> !attempt_matches(pattern@, string@, k));
            }
            return false;
        }
        s = s + 1;
    }
}

/// Law: the empty pattern matches every text. Its atom sequence is empty, so
/// the attempt at start offset 0 succeeds vacuously.
pub proof fn lemma_empty_pattern_matches(text: Seq<char>)
    ensures
        search_matches(compiled(Seq::<char>::empty()), text),
{
    let atoms = compiled(Seq::<char>::empty());
    assert(atoms.len() == 0);
    assert(attempt_matches(atoms, text, 0));
}

/// Law: the pattern of a single end anchor matches every text. The scan
/// tries every start offset up to and including the text's length, and there
/// the end anchor holds.
pub proof fn lemma_end_anchor_matches(text: Seq<char>)
    ensures
        search_matches(compiled(seq!['$']), text),
{
    let atoms = compiled(seq!['$']);
    assert(atoms =~= seq![Atom::EndAnchor]);
    assert(atoms.drop_first() =~= Seq::<Atom>::empty());
    assert(attempt_matches(Seq::<Atom>::empty(), text, text.len() as int));
    assert(attempt_matches(atoms, text, text.len() as int));
}

/// Law: the pattern of a single wildcard matches exactly the texts that hold
/// at least one code point. The wildcard must consume one character, whatever
/// that character is.
pub proof fn lemma_wildcard_matches(text: Seq<char>)
    ensures
        search_matches(compiled(seq!['.']), text) <==> text.len() > 0,
{
    let atoms = compiled(seq!['.']);
    assert(atoms =~= seq![Atom::Wildcard]);
    assert(atoms.drop_first() =~= Seq::<Atom>::empty());
    if text.len() > 0 {
        assert(attempt_matches(Seq::<Atom>::empty(), text, 1));
        assert(attempt_matches(atoms, text, 0));
    } else {
        assert forall|s: int| 0 <= s <= text.len() implies !attempt_matches(atoms, text, s) by {
            assert(!atom_matches(atoms[0], text, s));
        }
    }
}

} // verus!
