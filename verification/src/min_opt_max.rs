use vstd::prelude::*;

verus! {

/// A value composed of Min-Opt-Max
#[derive(Clone, Copy, Debug, PartialEq, Eq, Structural)]
pub struct MinOptMax {
    pub min: isize,
    pub opt: isize,
    pub max: isize,
}

impl Default for MinOptMax {
    fn default() -> (r: Self)
        ensures
            r.min == -1 && r.opt == -1 && r.max == -1,
    {
        Self { min: -1, opt: -1, max: -1 }
    }
}

impl From<(isize, isize, isize)> for MinOptMax {
    fn from(t: (isize, isize, isize)) -> (r: Self) {
        let min: isize = if t.0 < t.1 {
            t.0
        } else {
            t.1
        };
        let max: isize = if t.2 > t.1 {
            t.2
        } else {
            t.1
        };
        Self { min, opt: t.1, max }
    }
}

impl vstd::std_specs::convert::FromSpecImpl<(isize, isize, isize)> for MinOptMax {
    open spec fn obeys_from_spec() -> bool {
        true
    }

    open spec fn from_spec(t: (isize, isize, isize)) -> Self {
        MinOptMax {
            min: if t.0 < t.1 { t.0 } else { t.1 },
            opt: t.1,
            max: if t.2 > t.1 { t.2 } else { t.1 },
        }
    }
}

impl From<[isize; 3]> for MinOptMax {
    fn from(t: [isize; 3]) -> (r: Self) {
        let min: isize = if t[0] < t[1] {
            t[0]
        } else {
            t[1]
        };
        let max: isize = if t[2] > t[1] {
            t[2]
        } else {
            t[1]
        };
        Self { min, opt: t[1], max }
    }
}

impl vstd::std_specs::convert::FromSpecImpl<[isize; 3]> for MinOptMax {
    open spec fn obeys_from_spec() -> bool {
        true
    }

    open spec fn from_spec(t: [isize; 3]) -> Self {
        MinOptMax {
            min: if t[0] < t[1] { t[0] } else { t[1] },
            opt: t[1],
            max: if t[2] > t[1] { t[2] } else { t[1] },
        }
    }
}

impl MinOptMax {
    pub fn new(opt: isize) -> (r: Self)
        ensures
            r.min == opt && r.opt == opt && r.max == opt,
    {
        Self { min: opt, opt, max: opt }
    }
}

} // verus!
