//! A plain model of the configuration tree and typed getters over it.
//! The configuration is parsed outside and handed in as `YamlValue`s; the
//! rules that read it are verified here.

use vstd::prelude::*;
use vstd::string::StringExecFns;

verus! {

/// A parsed configuration value: scalars, a dictionary in insertion
/// order, or a list.
pub enum YamlValue {
    Str(String),
    Bool(bool),
    Int(i64),
    Real(String),
    Dict(Vec<(String, YamlValue)>),
    List(Vec<YamlValue>),
    Null,
}

/// A value of the wrong kind under a configuration key.
pub struct InvalidYamlTypeError {
    pub key: String,
}

/// Wrap a string as a configuration value.
pub fn yaml_string(s: &str) -> (r: YamlValue)
    ensures
        r matches YamlValue::Str(v) && v@ == s@,
{
    YamlValue::Str(String::from_str(s))
}

/// The value under a key, the latest entry winning as in a map built by
/// insertion.
pub open spec fn dict_lookup(
    d: Seq<(String, YamlValue)>,
    name: Seq<char>,
    n: int,
) -> Option<YamlValue>
    decreases n,
{
    if n <= 0 {
        None
    } else if d[n - 1].0@ == name {
        Some(d[n - 1].1)
    } else {
        dict_lookup(d, name, n - 1)
    }
}

/// The value under a key in the whole dictionary.
pub open spec fn yaml_lookup(d: Seq<(String, YamlValue)>, name: Seq<char>) -> Option<YamlValue> {
    dict_lookup(d, name, d.len() as int)
}

/// Find the value under a key.
pub fn dict_get<'a>(dict: &'a Vec<(String, YamlValue)>, name: &str) -> (r: Option<&'a YamlValue>)
    ensures
        match r {
            Some(v) => yaml_lookup(dict@, name@) == Some(*v),
            None => yaml_lookup(dict@, name@) is None,
        },
{
    let name_string = String::from_str(name);
    let mut found: Option<&'a YamlValue> = None;
    let mut n: usize = 0;
    while n < dict.len()
        invariant
            n <= dict@.len(),
            name_string@ == name@,
            match found {
                Some(v) => dict_lookup(dict@, name@, n as int) == Some(*v),
                None => dict_lookup(dict@, name@, n as int) is None,
            },
        decreases dict@.len() - n,
    {
        let entry = &dict[n];
        if entry.0 == name_string {
            found = Some(&entry.1);
        }
        n = n + 1;
    }
    found
}

/// The string under a key: absent keys give `None`, a value of another
/// kind is an error naming the key.
pub fn get_string_from<'a>(dict: &'a Vec<(String, YamlValue)>, name: &str) -> (r: Result<
    Option<&'a String>,
    InvalidYamlTypeError,
>)
    ensures
        match yaml_lookup(dict@, name@) {
            None => r matches Ok(None),
            Some(v) => match v {
                YamlValue::Str(s) => r matches Ok(Some(rs)) && *rs == s,
                _ => r matches Err(e) && e.key@ == name@,
            },
        },
{
    match dict_get(dict, name) {
        None => Ok(None),
        Some(YamlValue::Str(s)) => Ok(Some(s)),
        Some(_) => Err(InvalidYamlTypeError { key: String::from_str(name) }),
    }
}

/// The boolean under a key.
pub fn get_bool_from<'a>(dict: &'a Vec<(String, YamlValue)>, name: &str) -> (r: Result<
    Option<&'a bool>,
    InvalidYamlTypeError,
>)
    ensures
        match yaml_lookup(dict@, name@) {
            None => r matches Ok(None),
            Some(v) => match v {
                YamlValue::Bool(b) => r matches Ok(Some(rb)) && *rb == b,
                _ => r matches Err(e) && e.key@ == name@,
            },
        },
{
    match dict_get(dict, name) {
        None => Ok(None),
        Some(YamlValue::Bool(b)) => Ok(Some(b)),
        Some(_) => Err(InvalidYamlTypeError { key: String::from_str(name) }),
    }
}

/// The integer under a key.
pub fn get_int_from<'a>(dict: &'a Vec<(String, YamlValue)>, name: &str) -> (r: Result<
    Option<&'a i64>,
    InvalidYamlTypeError,
>)
    ensures
        match yaml_lookup(dict@, name@) {
            None => r matches Ok(None),
            Some(v) => match v {
                YamlValue::Int(i) => r matches Ok(Some(ri)) && *ri == i,
                _ => r matches Err(e) && e.key@ == name@,
            },
        },
{
    match dict_get(dict, name) {
        None => Ok(None),
        Some(YamlValue::Int(i)) => Ok(Some(i)),
        Some(_) => Err(InvalidYamlTypeError { key: String::from_str(name) }),
    }
}

/// The dictionary under a key.
pub fn get_dict_from<'a>(dict: &'a Vec<(String, YamlValue)>, name: &str) -> (r: Result<
    Option<&'a Vec<(String, YamlValue)>>,
    InvalidYamlTypeError,
>)
    ensures
        match yaml_lookup(dict@, name@) {
            None => r matches Ok(None),
            Some(v) => match v {
                YamlValue::Dict(d) => r matches Ok(Some(rd)) && *rd == d,
                _ => r matches Err(e) && e.key@ == name@,
            },
        },
{
    match dict_get(dict, name) {
        None => Ok(None),
        Some(YamlValue::Dict(d)) => Ok(Some(d)),
        Some(_) => Err(InvalidYamlTypeError { key: String::from_str(name) }),
    }
}

/// A required string: its absence is an error naming the key.
pub fn get_required_string<'a>(dict: &'a Vec<(String, YamlValue)>, name: &str) -> (r: Result<
    &'a String,
    crate::errors::StoreError,
>)
    ensures
        match yaml_lookup(dict@, name@) {
            None => (r matches Err(crate::errors::StoreError::MissingRequiredKey { key }) && key@
                == name@),
            Some(v) => match v {
                YamlValue::Str(s) => r matches Ok(rs) && *rs == s,
                _ => (r matches Err(crate::errors::StoreError::InvalidYamlType { key }) && key@
                    == name@),
            },
        },
{
    match get_string_from(dict, name) {
        Err(e) => Err(crate::errors::StoreError::InvalidYamlType { key: e.key }),
        Ok(None) => Err(
            crate::errors::StoreError::MissingRequiredKey { key: String::from_str(name) },
        ),
        Ok(Some(s)) => Ok(s),
    }
}

} // verus!
