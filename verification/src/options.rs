//! Configuration passed to equality, hashing and diff operations: how arrays
//! are interpreted, the numeric tolerance, and the set identity keys.
use crate::errors::OptionsError;
use crate::number::{f64_is_neg, finite_bits};
use crate::strutil;
use vstd::prelude::*;

verus! {

/// Controls how arrays are interpreted during equality and diff operations.
#[derive(Clone, Copy, Debug, PartialEq, Eq, Structural)]
pub enum ArrayMode {
    /// Arrays behave as ordered lists (default).
    List,
    /// Arrays behave as mathematical sets (order-insensitive, unique elements).
    SetMode,
    /// Arrays behave as multisets (order-insensitive, duplicate-aware).
    MultiSet,
}

impl Default for ArrayMode {
    fn default() -> (r: Self)
        ensures
            r == ArrayMode::List,
    {
        ArrayMode::List
    }
}

/// The abstract value of a set of diff options.
pub struct OptionsV {
    /// The array interpretation mode.
    pub array_mode: ArrayMode,
    /// The numeric tolerance, as the bit pattern of a finite non-negative
    /// binary64 value.
    pub precision: u64,
    /// The object identity keys for set semantics, sorted and unique.
    pub set_keys: Option<Seq<Seq<char>>>,
}

/// The tolerance denotes a value strictly greater than zero. With a
/// non-negative finite pattern that is exactly "the bits are not a zero".
pub open spec fn precision_positive(precision: u64) -> bool {
    crate::number::f64_mag_scaled(precision) > 0
}

/// The mode, tolerance and set keys fit together: a positive tolerance
/// demands list mode, and set keys demand set mode.
pub open spec fn options_combo_valid(v: OptionsV) -> bool {
    &&& !(!(v.array_mode is List) && precision_positive(v.precision))
    &&& !(v.set_keys is Some && !(v.array_mode is SetMode))
}

/// Well-formed options: a finite non-negative tolerance, a valid
/// combination, and sorted unique non-blank set keys.
pub open spec fn options_wf(v: OptionsV) -> bool {
    &&& finite_bits(v.precision)
    &&& !f64_is_neg(v.precision)
    &&& options_combo_valid(v)
    &&& v.set_keys matches Some(keys) ==> {
        &&& strutil::strings_strictly_sorted(v.set_keys->0)
        &&& v.set_keys->0.len() > 0
        &&& forall|i: int| 0 <= i < v.set_keys->0.len() ==> !strutil::is_blank(v.set_keys->0[i])
    }
}

/// Configuration knobs passed to equality and diff operations.
#[derive(Debug)]
pub struct DiffOptions {
    array_mode: ArrayMode,
    precision: u64,
    set_keys: Option<Vec<String>>,
}

impl View for DiffOptions {
    type V = OptionsV;

    closed spec fn view(&self) -> OptionsV {
        OptionsV {
            array_mode: self.array_mode,
            precision: self.precision,
            set_keys: match self.set_keys {
                Some(ref keys) => Some(strutil::string_views(keys@)),
                None => None,
            },
        }
    }
}

impl Clone for DiffOptions {
    fn clone(&self) -> (r: Self)
        ensures
            r@ == self@,
    {
        DiffOptions {
            array_mode: self.array_mode,
            precision: self.precision,
            set_keys: match &self.set_keys {
                Some(keys) => {
                    let mut out: Vec<String> = Vec::new();
                    let mut i: usize = 0;
                    while i < keys.len()
                        invariant
                            i <= keys@.len(),
                            out@.len() == i,
                            forall|j: int| 0 <= j < i ==> out@[j]@ == #[trigger] keys@[j]@,
                        decreases keys@.len() - i,
                    {
                        out.push(strutil::clone_str(&keys[i]));
                        i = i + 1;
                    }
                    proof {
                        assert(strutil::string_views(out@) =~= strutil::string_views(keys@));
                    }
                    Some(out)
                },
                None => None,
            },
        }
    }
}

impl Default for DiffOptions {
    /// The default options: list mode, tolerance zero, no set keys.
    fn default() -> (r: Self)
        ensures
            r@ == (OptionsV { array_mode: ArrayMode::List, precision: 0, set_keys: None }),
            options_wf(r@),
    {
        proof {
            vstd::arithmetic::power2::lemma2_to64();
            assert(crate::number::f64_exp(0) == 0 && crate::number::f64_frac(0) == 0 && (0u64
                >> 63) == 0) by (bit_vector);
        }
        DiffOptions { array_mode: ArrayMode::List, precision: 0, set_keys: None }
    }
}

impl DiffOptions {
    /// Returns the configured array interpretation mode.
    pub fn array_mode(&self) -> (r: ArrayMode)
        ensures
            r == self@.array_mode,
    {
        self.array_mode
    }

    /// Returns the numeric equality tolerance, as the bit pattern of a
    /// finite non-negative binary64 value.
    pub fn precision(&self) -> (r: u64)
        ensures
            r == self@.precision,
    {
        self.precision
    }

    /// Returns the keys used to identify objects within set semantics.
    pub fn set_keys(&self) -> (r: Option<&Vec<String>>)
        ensures
            match r {
                Some(keys) => self@.set_keys == Some(strutil::string_views(keys@)),
                None => self@.set_keys is None,
            },
    {
        match &self.set_keys {
            Some(keys) => Some(keys),
            None => None,
        }
    }

    /// Sets the array interpretation mode, re-validating the whole
    /// configuration: a positive tolerance still demands list mode, and set
    /// keys still demand set mode.
    pub fn with_array_mode(self, mode: ArrayMode) -> (r: Result<Self, OptionsError>)
        requires
            options_wf(self@),
        ensures
            ({
                let v = OptionsV {
                    array_mode: mode,
                    precision: self@.precision,
                    set_keys: self@.set_keys,
                };
                match r {
                    Ok(o) => o@ == v && options_wf(v),
                    Err(e) => {
                        &&& !options_combo_valid(v)
                        &&& (e == OptionsError::PrecisionIncompatible <==> (!(mode is List)
                            && precision_positive(self@.precision)))
                        &&& (e == OptionsError::SetKeysRequireSetMode <==> !(!(mode is List)
                            && precision_positive(self@.precision)))
                    },
                }
            }),
    {
        let updated = DiffOptions {
            array_mode: mode,
            precision: self.precision,
            set_keys: self.set_keys,
        };
        match updated.validate() {
            Ok(()) => Ok(updated),
            Err(e) => Err(e),
        }
    }

    /// Sets the numeric tolerance, given as the bit pattern of a finite
    /// non-negative binary64 value, re-validating the whole configuration.
    pub fn with_precision(self, precision: u64) -> (r: Result<Self, OptionsError>)
        requires
            options_wf(self@),
            finite_bits(precision),
            !f64_is_neg(precision),
        ensures
            ({
                let v = OptionsV {
                    array_mode: self@.array_mode,
                    precision: precision,
                    set_keys: self@.set_keys,
                };
                match r {
                    Ok(o) => o@ == v && options_wf(v),
                    Err(e) => {
                        &&& !options_combo_valid(v)
                        &&& e == OptionsError::PrecisionIncompatible
                    },
                }
            }),
    {
        let updated = DiffOptions {
            array_mode: self.array_mode,
            precision,
            set_keys: self.set_keys,
        };
        match updated.validate() {
            Ok(()) => Ok(updated),
            Err(e) => Err(e),
        }
    }

    /// Sets the object identity keys used when arrays behave as sets, and
    /// switches the array mode to set semantics. Keys that trim to nothing
    /// are rejected; the rest are sorted and de-duplicated.
    pub fn with_set_keys(self, keys: Vec<String>) -> (r: Result<Self, OptionsError>)
        requires
            options_wf(self@),
        ensures
            ({
                let kv = strutil::string_views(keys@);
                match r {
                    Ok(o) => {
                        &&& keys@.len() > 0
                        &&& forall|i: int| 0 <= i < kv.len() ==> !strutil::is_blank(kv[i])
                        &&& o@.array_mode is SetMode
                        &&& o@.precision == self@.precision
                        &&& o@.set_keys matches Some(sk) && strutil::strings_strictly_sorted(sk)
                            && (forall|k: Seq<char>| sk.contains(k) == kv.contains(k))
                        &&& options_wf(o@)
                    },
                    Err(e) => {
                        &&& (e == OptionsError::EmptySetKey <==> (keys@.len() == 0 || exists|
                        i: int,
                        |
                            0 <= i < kv.len() && strutil::is_blank(#[trigger] kv[i])))
                        &&& (e == OptionsError::PrecisionIncompatible <==> (!(keys@.len() == 0
                            || exists|i: int|
                            0 <= i < kv.len() && strutil::is_blank(#[trigger] kv[i]))
                            && precision_positive(self@.precision)))
                    },
                }
            }),
    {
        let ghost kv = strutil::string_views(keys@);
        proof {
            assert(forall|w: int| 0 <= w < keys@.len() ==> kv[w] == #[trigger] keys@[w]@);
        }
        let mut collected: Vec<String> = Vec::new();
        let mut i: usize = 0;
        while i < keys.len()
            invariant
                i <= keys@.len(),
                kv == strutil::string_views(keys@),
                forall|w: int| 0 <= w < keys@.len() ==> kv[w] == #[trigger] keys@[w]@,
                forall|j: int| 0 <= j < i ==> !strutil::is_blank(#[trigger] kv[j]),
                collected@.len() == i,
                forall|j: int| 0 <= j < i ==> collected@[j]@ == #[trigger] keys@[j]@,
            decreases keys@.len() - i,
        {
            if strutil::is_blank_exec(keys[i].as_str()) {
                return Err(OptionsError::EmptySetKey);
            }
            collected.push(strutil::clone_str(&keys[i]));
            i = i + 1;
        }
        if collected.len() == 0 {
            return Err(OptionsError::EmptySetKey);
        }
        proof {
            assert(strutil::string_views(collected@) =~= kv);
        }
        let sorted = strutil::sort_dedup_strings(collected);
        proof {
            let sv = strutil::string_views(sorted@);
            assert(sv.len() > 0) by {
                assert(sv.contains(kv[0]));
            }
            assert forall|j: int| 0 <= j < sv.len() implies !strutil::is_blank(#[trigger] sv[j]) by {
                assert(sv.contains(sv[j]));
                assert(kv.contains(sv[j]));
                let w = choose|w: int| 0 <= w < kv.len() && kv[w] == sv[j];
                assert(!strutil::is_blank(kv[w]));
            }
        }
        let updated = DiffOptions {
            array_mode: ArrayMode::SetMode,
            precision: self.precision,
            set_keys: Some(sorted),
        };
        match updated.validate() {
            Ok(()) => Ok(updated),
            Err(e) => Err(e),
        }
    }

    /// Re-checks the combination rules over the whole configuration.
    fn validate(&self) -> (r: Result<(), OptionsError>)
        requires
            finite_bits(self@.precision),
            !f64_is_neg(self@.precision),
        ensures
            match r {
                Ok(()) => options_combo_valid(self@),
                Err(e) => {
                    &&& !options_combo_valid(self@)
                    &&& (e == OptionsError::PrecisionIncompatible <==> (!(self@.array_mode is List)
                        && precision_positive(self@.precision)))
                    &&& (e == OptionsError::SetKeysRequireSetMode <==> !(!(
                    self@.array_mode is List) && precision_positive(self@.precision)))
                },
            },
    {
        let not_list = match self.array_mode {
            ArrayMode::List => false,
            _ => true,
        };
        proof {
            lemma_positive_precision_bits(self.precision);
        }
        if not_list && self.precision != 0 {
            return Err(OptionsError::PrecisionIncompatible);
        }
        let not_set = match self.array_mode {
            ArrayMode::SetMode => false,
            _ => true,
        };
        if self.set_keys.is_some() && not_set {
            return Err(OptionsError::SetKeysRequireSetMode);
        }
        Ok(())
    }
}

/// For a finite non-negative bit pattern, a positive denoted value is the
/// same as a nonzero pattern.
proof fn lemma_positive_precision_bits(p: u64)
    requires
        finite_bits(p),
        !f64_is_neg(p),
    ensures
        precision_positive(p) == (p != 0),
{
    vstd::arithmetic::power2::lemma2_to64();
    if crate::number::f64_exp(p) == 0 {
        assert((p & 0xFFFFFFFFFFFFF == 0) == (p == 0)) by (bit_vector)
            requires
                (p >> 52) & 0x7FF == 0 && (p >> 63) != 1,
        ;
    } else {
        vstd::arithmetic::power2::lemma_pow2_pos((crate::number::f64_exp(p) - 1) as nat);
        assert((0x10000000000000 + crate::number::f64_frac(p)) * pow2_local(p) > 0)
            by (nonlinear_arith)
            requires
                pow2_local(p) >= 1,
        ;
        assert(((p >> 52) & 0x7FF != 0) ==> p != 0) by (bit_vector);
    }
}

/// The power of two that scales a normal value's mantissa.
spec fn pow2_local(p: u64) -> nat {
    vstd::arithmetic::power2::pow2((crate::number::f64_exp(p) - 1) as nat)
}

} // verus!
