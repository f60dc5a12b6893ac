use vstd::prelude::*;
use vstd::string::*;

use crate::decoder::{DecodedArgument, DecodedSpec};

verus! {

/// The text line of a decoded instruction: `mnemonic destination`, followed by
/// `, source` when the source is not empty.
pub open spec fn render_spec(d: DecodedSpec) -> Seq<char> {
    if d.source.len() == 0 {
        d.mnemonic + seq![' '] + d.destination
    } else {
        d.mnemonic + seq![' '] + d.destination + seq![',', ' '] + d.source
    }
}

/// The first index at or after `i` that holds `c`.
pub open spec fn find_char(s: Seq<char>, c: char, i: nat) -> Option<nat>
    decreases s.len() - i,
{
    if i >= s.len() {
        None
    } else if s[i as int] == c {
        Some(i)
    } else {
        find_char(s, c, i + 1)
    }
}

/// The first index at or after `i` where `", "` starts.
pub open spec fn find_separator(s: Seq<char>, i: nat) -> Option<nat>
    decreases s.len() - i,
{
    if i + 1 >= s.len() {
        None
    } else if s[i as int] == ',' && s[i + 1int] == ' ' {
        Some(i)
    } else {
        find_separator(s, i + 1)
    }
}

/// Splits a line into mnemonic, destination and source: the mnemonic ends at
/// the first space, and the first `", "` after it ends the destination. A
/// line without a space has no instruction.
pub open spec fn parse_spec(line: Seq<char>) -> Option<(Seq<char>, Seq<char>, Seq<char>)> {
    match find_char(line, ' ', 0) {
        None => None,
        Some(k) => {
            let rest = line.subrange(k + 1int, line.len() as int);
            match find_separator(rest, 0) {
                Some(j) => Some(
                    (
                        line.subrange(0, k as int),
                        rest.subrange(0, j as int),
                        rest.subrange(j + 2int, rest.len() as int),
                    ),
                ),
                None => Some((line.subrange(0, k as int), rest, seq![])),
            }
        },
    }
}

pub open spec fn has_no(s: Seq<char>, c: char) -> bool {
    forall|i: int| 0 <= i < s.len() ==> s[i] != c
}

proof fn lemma_find_char(s: Seq<char>, c: char, prefix: nat, i: nat)
    requires
        i <= prefix < s.len(),
        s[prefix as int] == c,
        forall|j: int| i <= j < prefix ==> s[j] != c,
    ensures
        find_char(s, c, i) == Some(prefix),
    decreases prefix - i,
{
    if i < prefix {
        lemma_find_char(s, c, prefix, i + 1);
    }
}

proof fn lemma_find_char_none(s: Seq<char>, c: char, i: nat)
    requires
        forall|j: int| i <= j < s.len() ==> s[j] != c,
    ensures
        find_char(s, c, i) is None,
    decreases s.len() - i,
{
    if i < s.len() {
        lemma_find_char_none(s, c, i + 1);
    }
}

proof fn lemma_find_separator(s: Seq<char>, at: nat, i: nat)
    requires
        i <= at,
        at + 1 < s.len(),
        s[at as int] == ',' && s[at + 1int] == ' ',
        forall|j: int| i <= j < at ==> s[j] != ',',
    ensures
        find_separator(s, i) == Some(at),
    decreases at - i,
{
    if i < at {
        lemma_find_separator(s, at, i + 1);
    }
}

proof fn lemma_find_separator_none(s: Seq<char>, i: nat)
    requires
        forall|j: int| i <= j < s.len() ==> s[j] != ',',
    ensures
        find_separator(s, i) is None,
    decreases s.len() - i,
{
    if i + 1 < s.len() {
        lemma_find_separator_none(s, i + 1);
    }
}

/// Reading back a rendered line gives the mnemonic, destination and source
/// that were rendered, whenever the mnemonic holds no space and the
/// destination no comma.
pub proof fn lemma_render_parse(d: DecodedSpec)
    requires
        has_no(d.mnemonic, ' '),
        has_no(d.destination, ','),
    ensures
        parse_spec(render_spec(d)) == Some((d.mnemonic, d.destination, d.source)),
{
    let line = render_spec(d);
    let k = d.mnemonic.len();
    lemma_find_char(line, ' ', k, 0);
    let rest = line.subrange(k + 1int, line.len() as int);
    if d.source.len() == 0 {
        assert(rest =~= d.destination);
        lemma_find_separator_none(rest, 0);
    } else {
        assert(rest =~= d.destination + seq![',', ' '] + d.source);
        lemma_find_separator(rest, d.destination.len(), 0);
        assert(rest.subrange(0, d.destination.len() as int) =~= d.destination);
        assert(rest.subrange(d.destination.len() + 2int, rest.len() as int) =~= d.source);
    }
    assert(line.subrange(0, k as int) =~= d.mnemonic);
}

impl DecodedArgument {
    /// Renders the instruction as one line of text.
    pub fn render(&self) -> (r: String)
        ensures
            r@ == render_spec(self@),
    {
        proof {
            reveal_strlit(" ");
            reveal_strlit(", ");
        }
        let mut line = self.operand.clone();
        line.append(" ");
        line.append(self.destination.as_str());
        if self.source.unicode_len() > 0 {
            line.append(", ");
            line.append(self.source.as_str());
        }
        assert(line@ =~= render_spec(self@));
        line
    }

    /// Reads an instruction back from one line of text; the byte count of the
    /// result is zero. `None` when the line holds no space.
    pub fn parse(line: &str) -> (r: Option<DecodedArgument>)
        ensures
            match r {
                Some(d) => parse_spec(line@) == Some((d@.mnemonic, d@.destination, d@.source))
                    && d.byte_count == 0,
                None => parse_spec(line@) is None,
            },
    {
        let n = line.unicode_len();
        let mut k: usize = 0;
        while k < n && line.get_char(k) != ' '
            invariant
                n == line@.len(),
                0 <= k <= n,
                forall|j: int| 0 <= j < k ==> line@[j] != ' ',
            decreases n - k,
        {
            k = k + 1;
        }
        if k == n {
            proof {
                lemma_find_char_none(line@, ' ', 0);
            }
            return None;
        }
        proof {
            lemma_find_char(line@, ' ', k as nat, 0);
        }
        let mnemonic = line.substring_char(0, k);
        let rest = line.substring_char(k + 1, n);
        let m = rest.unicode_len();
        let mut j: usize = 0;
        let mut found = false;
        while !found && j < m && m - j > 1
            invariant
                m == rest@.len(),
                0 <= j <= m,
                found ==> j + 1 < m && find_separator(rest@, 0) == Some(j as nat),
                !found ==> find_separator(rest@, 0) == find_separator(rest@, j as nat),
            decreases m - j + (if found { 0int } else { 1int }),
        {
            if rest.get_char(j) == ',' && rest.get_char(j + 1) == ' ' {
                found = true;
            } else {
                j = j + 1;
            }
        }
        let (destination, source) = if found {
            (String::from_str(rest.substring_char(0, j)), String::from_str(rest.substring_char(j + 2, m)))
        } else {
            (String::from_str(rest), String::new())
        };
        let r = DecodedArgument {
            operand: String::from_str(mnemonic),
            source,
            destination,
            byte_count: 0,
        };
        proof {
            if !found {
                assert(find_separator(rest@, j as nat) is None);
                assert(r@.source =~= seq![]);
            }
        }
        Some(r)
    }
}

} // verus!
