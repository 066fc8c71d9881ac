use vstd::prelude::*;

use crate::errors::Error;
use crate::headers::{
    constants, insert_entry, last_value, last_value_of, law_lookup_after_insert, set_single,
    Entries, HeaderName, HeaderValue, HeaderValues, Headers, ToHeaderValues,
};
use crate::text::{all_ascii, chars_of};

verus! {

/// HTTP `Save-Data` header: whether the client asks for reduced data usage.
///
/// This header is considered "experimental" and may be subject to change as
/// the spec evolves.
#[derive(Debug, PartialEq, Eq, Structural, PartialOrd, Ord, Clone, Copy)]
pub struct SaveData {
    enabled: bool,
}

impl View for SaveData {
    type V = bool;

    closed spec fn view(&self) -> bool {
        self.enabled
    }
}

/// The value of the header: `1` when enabled, `0` when not.
pub open spec fn save_data_text(enabled: bool) -> Seq<char> {
    if enabled {
        seq!['1']
    } else {
        seq!['0']
    }
}

/// What reading a `Save-Data` header from headers gives.
pub open spec fn save_data_result(es: Entries) -> Result<Option<bool>, Error> {
    match last_value(es, "save-data"@) {
        None => Ok(None),
        Some(v) => if v == seq!['1'] {
            Ok(Some(true))
        } else if v == seq!['0'] {
            Ok(Some(false))
        } else {
            Err(Error::Status(400, "malformed `SaveData` header"))
        },
    }
}

/// Law: a `Save-Data` header that was applied reads back as the same value.
pub proof fn law_save_data_round_trip(es: Entries, enabled: bool)
    ensures
        save_data_result(insert_entry(es, "save-data"@, seq![save_data_text(enabled)])) == Ok::<
            Option<bool>,
            Error,
        >(Some(enabled)),
{
    law_lookup_after_insert(es, "save-data"@, seq![save_data_text(enabled)], "save-data"@);
    assert(seq![save_data_text(enabled)].last() == save_data_text(enabled));
    assert(seq!['0'] != seq!['1']) by {
        assert(seq!['0'][0] != seq!['1'][0]);
    }
}

/// Law: the header value `1` means data saving is on and `0` that it is
/// off, whatever else the headers hold: enabling writes `1`, disabling
/// writes `0`, and a last `Save-Data` value of `1` or `0` reads as on or off.
pub proof fn law_save_data_values(es: Entries)
    ensures
        save_data_text(true) == seq!['1'],
        save_data_text(false) == seq!['0'],
        last_value(es, "save-data"@) == Some(seq!['1']) ==> save_data_result(es) == Ok::<
            Option<bool>,
            Error,
        >(Some(true)),
        last_value(es, "save-data"@) == Some(seq!['0']) ==> save_data_result(es) == Ok::<
            Option<bool>,
            Error,
        >(Some(false)),
{
    assert(seq!['0'] != seq!['1']) by {
        assert(seq!['0'][0] != seq!['1'][0]);
    }
}

impl SaveData {
    /// Create a new instance of `SaveData`.
    pub fn new(enabled: bool) -> (r: Self)
        ensures
            r@ == enabled,
    {
        Self { enabled }
    }

    /// Whether data saving is asked for.
    pub fn enabled(&self) -> (r: bool)
        ensures
            r == self@,
    {
        self.enabled
    }

    /// Create an instance of `SaveData` from a `Headers` instance; the last
    /// value of the header counts.
    pub fn from_headers(headers: &Headers) -> (r: Result<Option<Self>, Error>)
        ensures
            crate::headers::same_result(r, save_data_result(headers@)),
    {
        let name = constants::save_data();
        let value = match last_value_of(headers, &name) {
            Some(v) => v,
            None => return Ok(None),
        };
        let cs = chars_of(value.as_str());
        if cs.len() == 1 && cs[0] == '1' {
            assert(cs@ =~= seq!['1']);
            Ok(Some(Self { enabled: true }))
        } else if cs.len() == 1 && cs[0] == '0' {
            assert(cs@ =~= seq!['0']);
            Ok(Some(Self { enabled: false }))
        } else {
            assert(cs@ != seq!['1'] && cs@ != seq!['0']) by {
                if cs@.len() == 1 {
                    assert(cs@[0] == cs[0]);
                }
            }
            Err(Error::Status(400, "malformed `SaveData` header"))
        }
    }

    /// Insert the header into a `Headers` instance, replacing its values.
    pub fn apply(&self, headers: &mut Headers)
        ensures
            final(headers)@ == insert_entry(old(headers)@, "save-data"@, seq![save_data_text(self@)]),
    {
        set_single(headers, self.name(), self.value());
    }

    /// Get the `HeaderName`.
    pub fn name(&self) -> (r: HeaderName)
        ensures
            r@ == "save-data"@,
    {
        constants::save_data()
    }

    /// Get the `HeaderValue`.
    pub fn value(&self) -> (r: HeaderValue)
        ensures
            r@ == save_data_text(self@),
    {
        proof {
            reveal_strlit("1");
            reveal_strlit("0");
        }
        let s = if self.enabled {
            "1"
        } else {
            "0"
        };
        assert(all_ascii(s@));
        HeaderValue::from_static_str(s)
    }
}

impl ToHeaderValues for SaveData {
    open spec fn header_values_spec(&self) -> Option<Seq<Seq<char>>> {
        Some(seq![save_data_text(self@)])
    }

    fn to_header_values(&self) -> (r: Result<HeaderValues, Error>) {
        Ok(HeaderValues::new(self.value()))
    }
}

} // verus!
