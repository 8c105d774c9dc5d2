use vstd::prelude::*;

verus! {

/// The animation effects that the player knows.
#[derive(Clone, Copy, Debug, PartialEq, Eq, Structural)]
pub enum Effect {
    DissolveIn,
    DissolveOut,
    SwirlIn,
    SwirlOut,
    WhirlIn,
    WhirlOut,
    KenBurns,
}

/// The command-line name of each effect.
pub open spec fn effect_name(e: Effect) -> Seq<char> {
    match e {
        Effect::DissolveIn => "dissolve-in"@,
        Effect::DissolveOut => "dissolve-out"@,
        Effect::SwirlIn => "swirl-in"@,
        Effect::SwirlOut => "swirl-out"@,
        Effect::WhirlIn => "whirl-in"@,
        Effect::WhirlOut => "whirl-out"@,
        Effect::KenBurns => "ken-burns"@,
    }
}

/// Character-wise equality of two string slices.
pub fn same_text(a: &str, b: &str) -> (r: bool)
    ensures
        r == (a@ == b@),
{
    let n = a.unicode_len();
    if n != b.unicode_len() {
        return false;
    }
    let mut i: usize = 0;
    while i < n
        invariant
            n == a@.len(),
            n == b@.len(),
            i <= n,
            forall|j: int| 0 <= j < i ==> a@[j] == b@[j],
        decreases n - i,
    {
        if a.get_char(i) != b.get_char(i) {
            return false;
        }
        i = i + 1;
    }
    assert(a@ =~= b@);
    true
}

impl Effect {
    /// Looks an effect up by its command-line name; `None` for any other text.
    pub fn from_str(s: &str) -> (r: Option<Effect>)
        ensures
            match r {
                Some(e) => s@ == effect_name(e),
                None => forall|e: Effect| s@ != effect_name(e),
            },
    {
        if same_text(s, "dissolve-in") {
            Some(Effect::DissolveIn)
        } else if same_text(s, "dissolve-out") {
            Some(Effect::DissolveOut)
        } else if same_text(s, "swirl-in") {
            Some(Effect::SwirlIn)
        } else if same_text(s, "swirl-out") {
            Some(Effect::SwirlOut)
        } else if same_text(s, "whirl-in") {
            Some(Effect::WhirlIn)
        } else if same_text(s, "whirl-out") {
            Some(Effect::WhirlOut)
        } else if same_text(s, "ken-burns") {
            Some(Effect::KenBurns)
        } else {
            None
        }
    }
}

} // verus!
