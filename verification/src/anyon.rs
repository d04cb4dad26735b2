//! Topological charges of the Ising model and the anyons that carry them.

use vstd::prelude::*;
use vstd::string::*;

verus! {

/// Topological charge of an Ising anyon.
#[derive(Copy, Clone, Debug, PartialEq, Eq, Hash, Structural)]
pub enum TopoCharge {
    Psi,
    Vacuum,
    Sigma,
}

impl TopoCharge {
    /// Position of the charge in a canonical charge vector.
    pub open spec fn index(self) -> int {
        match self {
            TopoCharge::Psi => 0,
            TopoCharge::Vacuum => 1,
            TopoCharge::Sigma => 2,
        }
    }

    /// The name under which the charge is written.
    pub open spec fn name(self) -> Seq<char> {
        match self {
            TopoCharge::Psi => "Psi"@,
            TopoCharge::Vacuum => "Vacuum"@,
            TopoCharge::Sigma => "Sigma"@,
        }
    }

    /// The charge that a text names, if it names one.
    pub open spec fn named(text: Seq<char>) -> Option<TopoCharge> {
        if text == "Psi"@ {
            Some(TopoCharge::Psi)
        } else if text == "Vacuum"@ {
            Some(TopoCharge::Vacuum)
        } else if text == "Sigma"@ {
            Some(TopoCharge::Sigma)
        } else {
            None
        }
    }

    /// Position of the charge in a canonical charge vector.
    pub fn value(&self) -> (i: usize)
        ensures
            i == self.index(),
    {
        match self {
            TopoCharge::Psi => 0,
            TopoCharge::Vacuum => 1,
            TopoCharge::Sigma => 2,
        }
    }

    /// The name of the charge: "Psi", "Vacuum" or "Sigma".
    pub fn to_string(&self) -> (text: String)
        ensures
            text@ == self.name(),
    {
        match self {
            TopoCharge::Psi => String::from_str("Psi"),
            TopoCharge::Vacuum => String::from_str("Vacuum"),
            TopoCharge::Sigma => String::from_str("Sigma"),
        }
    }

    /// Reads a charge back from its name. Any other text names no charge.
    pub fn from_name(text: &str) -> (charge: Option<TopoCharge>)
        ensures
            charge == TopoCharge::named(text@),
            match charge {
                Some(named) => text@ == named.name(),
                None => forall|other: TopoCharge| text@ != #[trigger] other.name(),
            },
    {
        proof {
            assert forall|other: TopoCharge| text@ == #[trigger] other.name() implies TopoCharge::named(
                text@,
            ) == Some(other) by {
                other.lemma_name_round_trip();
            }
        }
        let text = String::from_str(text);
        if text == String::from_str("Psi") {
            Some(TopoCharge::Psi)
        } else if text == String::from_str("Vacuum") {
            Some(TopoCharge::Vacuum)
        } else if text == String::from_str("Sigma") {
            Some(TopoCharge::Sigma)
        } else {
            None
        }
    }

    /// Writing a charge and reading the text back gives the charge again.
    pub proof fn lemma_name_round_trip(self)
        ensures
            TopoCharge::named(self.name()) == Some(self),
    {
        reveal_strlit("Psi");
        reveal_strlit("Vacuum");
        reveal_strlit("Sigma");
        assert("Psi"@.len() == 3);
        assert("Vacuum"@.len() == 6);
        assert("Sigma"@.len() == 5);
    }
}

/// What an anyon is, as plain values.
pub struct AnyonView {
    pub name: Seq<char>,
    pub charge: TopoCharge,
    pub position: (u64, u64),
}

/// A quasiparticle with a name, a topological charge and a place in the
/// plane. The two coordinates are kept as the bit patterns of IEEE 754
/// double-precision numbers; nothing here computes with them.
#[derive(Debug, PartialEq)]
pub struct Anyon {
    name: String,
    charge: TopoCharge,
    position: (u64, u64),
}

impl View for Anyon {
    type V = AnyonView;

    closed spec fn view(&self) -> AnyonView {
        AnyonView { name: self.name@, charge: self.charge, position: self.position }
    }
}

impl Clone for Anyon {
    fn clone(&self) -> (copy: Anyon)
        ensures
            copy@ == self@,
    {
        Anyon { name: self.name.clone(), charge: self.charge, position: self.position }
    }
}

impl Anyon {
    pub fn new(name: String, charge: TopoCharge, position: (u64, u64)) -> (anyon: Anyon)
        ensures
            anyon@ == (AnyonView { name: name@, charge, position }),
    {
        Anyon { name, charge, position }
    }

    pub fn name(&self) -> (name: &str)
        ensures
            name@ == self@.name,
    {
        self.name.as_str()
    }

    pub fn charge(&self) -> (charge: TopoCharge)
        ensures
            charge == self@.charge,
    {
        self.charge
    }

    /// The bit patterns of the two coordinates.
    pub fn position(&self) -> (position: (u64, u64))
        ensures
            position == self@.position,
    {
        self.position
    }
}

} // verus!
