use vstd::prelude::*;

verus! {

/// A four-limb scalar container, little-limb-first: the raw representation a
/// field element is built from.
pub struct Fs {
    _arr: [u64; 4],
}

impl Fs {
    /// The four limbs held by this value.
    pub closed spec fn limbs(self) -> [u64; 4] {
        self._arr
    }

    /// Wraps four limbs as given, without reduction.
    pub fn new(arr: [u64; 4]) -> (r: Self)
        ensures
            r.limbs() == arr,
    {
        Self { _arr: arr }
    }
}

impl From<u64> for Fs {
    /// A scalar whose least significant limb is the given word.
    fn from(a: u64) -> (r: Fs) {
        Fs { _arr: [a, 0, 0, 0] }
    }
}

impl vstd::std_specs::convert::FromSpecImpl<u64> for Fs {
    closed spec fn obeys_from_spec() -> bool {
        true
    }

    closed spec fn from_spec(a: u64) -> Fs {
        Fs { _arr: [a, 0, 0, 0] }
    }
}

impl From<Fs> for u64 {
    /// The least significant limb, truncating the rest.
    fn from(fs: Fs) -> (r: u64) {
        fs._arr[0]
    }
}

impl vstd::std_specs::convert::FromSpecImpl<Fs> for u64 {
    closed spec fn obeys_from_spec() -> bool {
        true
    }

    closed spec fn from_spec(fs: Fs) -> u64 {
        fs._arr[0]
    }
}

/// The conversions' public face: both std conversions obey their specs, a
/// scalar built from a word carries it in the low limb, and converting back
/// to a word reads that limb.  From these, u64::from(Fs::from(a)) == a for
/// every word a.
pub proof fn lemma_fs_u64_conversions(a: u64, fs: Fs)
    ensures
        <Fs as vstd::std_specs::convert::FromSpec<u64>>::obeys_from_spec(),
        <u64 as vstd::std_specs::convert::FromSpec<Fs>>::obeys_from_spec(),
        (<Fs as vstd::std_specs::convert::FromSpec<u64>>::from_spec(a)).limbs()
            == [a, 0u64, 0u64, 0u64],
        <u64 as vstd::std_specs::convert::FromSpec<Fs>>::from_spec(fs) == fs.limbs()[0],
{
}

} // verus!
