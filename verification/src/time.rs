//! A time of day: hour, minute, and optional fractional seconds, with range
//! validation at construction.

use vstd::prelude::*;
use crate::decimal::{Dec, DecV, dec_render};
use crate::render::{dec_digits, u64_to_string};

verus! {

/// The mathematical content of a [`Time`].
pub struct TimeV {
    pub h: u8,
    pub m: u8,
    pub s: Option<DecV>,
}

/// An hour/minute value with optional fractional seconds. Construction
/// rejects an out-of-range hour or minute; no partially valid value exists.
pub struct Time {
    h: u8,
    m: u8,
    s: Option<Dec>,
}

impl View for Time {
    type V = TimeV;

    closed spec fn view(&self) -> TimeV {
        TimeV {
            h: self.h,
            m: self.m,
            s: match self.s {
                Some(d) => Some(d@),
                None => None,
            },
        }
    }
}

/// The rendering of a time value: hour, a colon, minute, and the fractional
/// seconds when present.
pub open spec fn time_render(t: TimeV) -> Seq<char> {
    dec_digits(t.h as nat) + seq![':'] + dec_digits(t.m as nat) + (match t.s {
        Some(d) => dec_render(d),
        None => Seq::<char>::empty(),
    })
}

impl Time {
    /// Builds a time from an hour and a minute; yields no value when the
    /// hour exceeds 23 or the minute exceeds 59.
    pub fn from_hm(h: u8, m: u8) -> (r: Option<Time>)
        ensures
            h <= 23 && m <= 59 ==> (r matches Some(t) && t@ == (TimeV { h, m, s: None })),
            !(h <= 23 && m <= 59) ==> r is None,
    {
        if h <= 23 && m <= 59 {
            Some(Time { h, m, s: None })
        } else {
            None
        }
    }

    /// The canonical rendering of the time.
    pub fn to_string(&self) -> (r: String)
        ensures
            r@ == time_render(self@),
    {
        let mut out = u64_to_string(self.h as u64);
        proof {
            reveal_strlit(":");
            assert(":"@ =~= seq![':']);
        }
        out.append(":");
        let minutes = u64_to_string(self.m as u64);
        out.append(minutes.as_str());
        match &self.s {
            Some(d) => {
                let frac = d.to_string();
                out.append(frac.as_str());
            },
            None => {},
        }
        proof {
            assert(out@ =~= time_render(self@));
        }
        out
    }
}

} // verus!
