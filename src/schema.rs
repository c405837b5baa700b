use vstd::prelude::*;

use crate::strmap::{DeepCopy, StrMap};

verus! {

/// What a log type says of one attribute: whether it is meant to be hidden from
/// casual display, and the value that it takes when a record leaves it out.
#[derive(Clone, Debug, PartialEq, Eq)]
pub struct LogAttr {
    pub hidden: bool,
    pub default: Option<String>,
}

/// The mathematical value of a [`LogAttr`].
pub struct AttrSpec {
    pub hidden: bool,
    pub default: Option<Seq<char>>,
}

impl View for LogAttr {
    type V = AttrSpec;

    open spec fn view(&self) -> AttrSpec {
        AttrSpec {
            hidden: self.hidden,
            default: match self.default {
                Some(d) => Some(d@),
                None => None,
            },
        }
    }
}

impl LogAttr {
    pub fn new(hidden: bool, default: Option<String>) -> (r: LogAttr)
        ensures
            r.hidden == hidden,
            r.default == default,
    {
        LogAttr { hidden, default }
    }
}

impl DeepCopy for LogAttr {
    fn deep_copy(&self) -> (r: LogAttr) {
        let default = match &self.default {
            Some(d) => Some(d.clone()),
            None => None,
        };
        LogAttr { hidden: self.hidden, default }
    }
}

/// The attributes of a log type, by attribute name.
pub type LogAttrs = StrMap<LogAttr>;

/// Registered log types: attributes by type name.
pub type LogTypes = StrMap<LogAttrs>;

/// Properties of a log record: values by key.
pub type Props = StrMap<String>;

/// A named log type.
#[derive(Debug)]
pub struct LogType {
    pub name: String,
    pub attrs: LogAttrs,
}

impl LogType {
    pub fn new(name: String, attrs: LogAttrs) -> (r: LogType)
        ensures
            r.name == name,
            r.attrs == attrs,
    {
        LogType { name, attrs }
    }
}

} // verus!
