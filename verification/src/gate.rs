//! Gate names and the cells each gate works on.

use vstd::prelude::*;
use vstd::string::*;

verus! {

/// One of the ten gates of the fixed rule table.
#[derive(Clone, Copy, Debug, PartialEq, Eq, Structural)]
pub enum Gate {
    X0,
    X1,
    Y0,
    Y1,
    Z0,
    Z1,
    H0,
    H1,
    Cx,
    Sw,
}

/// What a gate does to the cells it works on.
#[derive(Clone, Copy, Debug, PartialEq, Eq, Structural)]
pub enum Rule {
    /// Exchange the two cells.
    Swap(usize, usize),
    /// Flip the sign of the cell.
    Negate(usize),
    /// Replace the cells `base` and `base + 2` by their scaled sum and
    /// difference.
    Mix(usize),
}

impl Rule {
    /// Whether the rule reads or writes cell `i`.
    pub open spec fn touches(self, i: int) -> bool {
        match self {
            Rule::Swap(a, b) => i == a || i == b,
            Rule::Negate(a) => i == a,
            Rule::Mix(base) => i == base || i == base + 2,
        }
    }

    /// Every cell the rule names lies in the first four of the eight.
    pub open spec fn in_range(self) -> bool {
        forall|i: int| self.touches(i) ==> 0 <= i < 4
    }
}

impl Gate {
    /// The two characters by which this gate is written.
    pub open spec fn spec_name(self) -> Seq<char> {
        match self {
            Gate::X0 => seq!['x', '0'],
            Gate::X1 => seq!['x', '1'],
            Gate::Y0 => seq!['y', '0'],
            Gate::Y1 => seq!['y', '1'],
            Gate::Z0 => seq!['z', '0'],
            Gate::Z1 => seq!['z', '1'],
            Gate::H0 => seq!['h', '0'],
            Gate::H1 => seq!['h', '1'],
            Gate::Cx => seq!['c', 'x'],
            Gate::Sw => seq!['s', 'w'],
        }
    }

    /// Which gate `text` names, if any. Names are matched
    /// exactly: case matters and nothing may stand around the two characters.
    pub open spec fn spec_recognize(text: Seq<char>) -> Option<Gate> {
        if text.len() != 2 {
            None
        } else if text[0] == 'x' && text[1] == '0' {
            Some(Gate::X0)
        } else if text[0] == 'x' && text[1] == '1' {
            Some(Gate::X1)
        } else if text[0] == 'y' && text[1] == '0' {
            Some(Gate::Y0)
        } else if text[0] == 'y' && text[1] == '1' {
            Some(Gate::Y1)
        } else if text[0] == 'z' && text[1] == '0' {
            Some(Gate::Z0)
        } else if text[0] == 'z' && text[1] == '1' {
            Some(Gate::Z1)
        } else if text[0] == 'h' && text[1] == '0' {
            Some(Gate::H0)
        } else if text[0] == 'h' && text[1] == '1' {
            Some(Gate::H1)
        } else if text[0] == 'c' && text[1] == 'x' {
            Some(Gate::Cx)
        } else if text[0] == 's' && text[1] == 'w' {
            Some(Gate::Sw)
        } else {
            None
        }
    }

    /// The rule table.
    pub open spec fn spec_rule(self) -> Rule {
        match self {
            Gate::X0 => Rule::Swap(0, 1),
            Gate::X1 => Rule::Swap(1, 3),
            Gate::Y0 => Rule::Negate(0),
            Gate::Y1 => Rule::Negate(1),
            Gate::Z0 => Rule::Negate(2),
            Gate::Z1 => Rule::Negate(1),
            Gate::H0 => Rule::Mix(0),
            Gate::H1 => Rule::Mix(1),
            Gate::Cx => Rule::Swap(1, 3),
            Gate::Sw => Rule::Swap(1, 2),
        }
    }

    /// The name of this gate.
    pub fn name(self) -> (text: &'static str)
        ensures
            text@ == self.spec_name(),
    {
        proof {
            reveal_strlit("x0");
            reveal_strlit("x1");
            reveal_strlit("y0");
            reveal_strlit("y1");
            reveal_strlit("z0");
            reveal_strlit("z1");
            reveal_strlit("h0");
            reveal_strlit("h1");
            reveal_strlit("cx");
            reveal_strlit("sw");
        }
        match self {
            Gate::X0 => "x0",
            Gate::X1 => "x1",
            Gate::Y0 => "y0",
            Gate::Y1 => "y1",
            Gate::Z0 => "z0",
            Gate::Z1 => "z1",
            Gate::H0 => "h0",
            Gate::H1 => "h1",
            Gate::Cx => "cx",
            Gate::Sw => "sw",
        }
    }

    /// Reads a gate name. Returns `None` for every text that is not one of
    /// the ten names.
    pub fn recognize(text: &str) -> (gate: Option<Gate>)
        ensures
            gate == Gate::spec_recognize(text@),
    {
        if text.unicode_len() != 2 {
            return None;
        }
        let first = text.get_char(0);
        let second = text.get_char(1);
        if first == 'x' && second == '0' {
            Some(Gate::X0)
        } else if first == 'x' && second == '1' {
            Some(Gate::X1)
        } else if first == 'y' && second == '0' {
            Some(Gate::Y0)
        } else if first == 'y' && second == '1' {
            Some(Gate::Y1)
        } else if first == 'z' && second == '0' {
            Some(Gate::Z0)
        } else if first == 'z' && second == '1' {
            Some(Gate::Z1)
        } else if first == 'h' && second == '0' {
            Some(Gate::H0)
        } else if first == 'h' && second == '1' {
            Some(Gate::H1)
        } else if first == 'c' && second == 'x' {
            Some(Gate::Cx)
        } else if first == 's' && second == 'w' {
            Some(Gate::Sw)
        } else {
            None
        }
    }

    /// Looks this gate up in the rule table.
    pub fn rule(self) -> (rule: Rule)
        ensures
            rule == self.spec_rule(),
            rule.in_range(),
    {
        match self {
            Gate::X0 => Rule::Swap(0, 1),
            Gate::X1 => Rule::Swap(1, 3),
            Gate::Y0 => Rule::Negate(0),
            Gate::Y1 => Rule::Negate(1),
            Gate::Z0 => Rule::Negate(2),
            Gate::Z1 => Rule::Negate(1),
            Gate::H0 => Rule::Mix(0),
            Gate::H1 => Rule::Mix(1),
            Gate::Cx => Rule::Swap(1, 3),
            Gate::Sw => Rule::Swap(1, 2),
        }
    }
}

/// A text is recognized exactly when it is the name of that very gate, so
/// the ten names are told apart and nothing else is taken for a gate.
pub proof fn lemma_recognize_inverts_name(text: Seq<char>, gate: Gate)
    ensures
        Gate::spec_recognize(text) == Some(gate) <==> text == gate.spec_name(),
{
    if Gate::spec_recognize(text) == Some(gate) {
        assert(text =~= gate.spec_name());
    }
}

} // verus!
