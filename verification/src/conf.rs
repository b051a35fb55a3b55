use vstd::prelude::*;

use crate::error::YoloError;

verus! {

/// A per-index confidence-threshold table (per class or per keypoint),
/// broadcastable from a single value. Thresholds are fixed-point, like every
/// score in this crate.
#[derive(Clone, Debug)]
pub struct DynConf {
    pub values: Vec<i64>,
}

impl View for DynConf {
    type V = Seq<i64>;

    open spec fn view(&self) -> Seq<i64> {
        self.values@
    }
}

impl DynConf {
    /// Build a table of exactly `n` thresholds from a caller-supplied list:
    /// a single value broadcasts to all `n` slots, a list of at least `n`
    /// values supplies the first `n`, and anything shorter is a
    /// configuration error.
    pub fn new(confs: &Vec<i64>, n: usize) -> (r: Result<DynConf, YoloError>)
        ensures
            n == 0 ==> (r matches Ok(c) && c@ =~= Seq::<i64>::empty()),
            n > 0 && confs@.len() == 1 ==> (r matches Ok(c) && c@ =~= Seq::new(
                n as nat,
                |i: int| confs@[0],
            )),
            n > 0 && confs@.len() != 1 && confs@.len() >= n ==> (r matches Ok(c) && c@
                =~= confs@.take(n as int)),
            n > 0 && confs@.len() != 1 && confs@.len() < n ==> r == Err::<DynConf, YoloError>(
                YoloError::Configuration,
            ),
            r matches Ok(c) ==> c@.len() == n,
    {
        if n == 0 {
            Ok(DynConf { values: Vec::new() })
        } else if confs.len() == 1 {
            let v = confs[0];
            let mut values: Vec<i64> = Vec::new();
            let mut i: usize = 0;
            while i < n
                invariant
                    i <= n,
                    values@ =~= Seq::new(i as nat, |j: int| v),
                decreases n - i,
            {
                values.push(v);
                i = i + 1;
            }
            Ok(DynConf { values })
        } else if confs.len() >= n {
            let mut values: Vec<i64> = Vec::new();
            let mut i: usize = 0;
            while i < n
                invariant
                    i <= n,
                    n <= confs@.len(),
                    values@ =~= confs@.take(i as int),
                decreases n - i,
            {
                values.push(confs[i]);
                i = i + 1;
            }
            Ok(DynConf { values })
        } else {
            Err(YoloError::Configuration)
        }
    }

    pub fn len(&self) -> (r: usize)
        ensures
            r == self@.len(),
    {
        self.values.len()
    }

    /// The threshold for index `i`.
    pub fn get(&self, i: usize) -> (r: i64)
        requires
            i < self@.len(),
        ensures
            r == self@[i as int],
    {
        self.values[i]
    }
}

} // verus!
