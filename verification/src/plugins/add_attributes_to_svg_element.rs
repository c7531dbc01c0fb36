//! Adds attributes to the outer `<svg>` element; an attribute that is
//! already there keeps its value.

use vstd::prelude::*;
use crate::ast::{Document, Element, attr_entries, entry_index, entry_insert};
use crate::plugin::{Plugin, PluginError, PluginInfo, PluginResult};
use crate::strings::{owned, str_eq};
use crate::value::{Value, opt_value, value_get};

verus! {

/// The plugin that adds attributes to the `<svg>` element.
pub struct AddAttributesToSVGElementPlugin;

/// One attribute to add: a bare name (empty value) or a name with a value.
#[derive(Debug)]
pub enum AttributeSpec {
    Name(String),
    NameValue(String, String),
}

/// The attributes to add, in order.
#[derive(Debug)]
pub struct AddAttributesConfig {
    pub attributes: Vec<AttributeSpec>,
}

/// The name and the value that a spec adds.
pub open spec fn spec_pair(a: AttributeSpec) -> (Seq<char>, Seq<char>) {
    match a {
        AttributeSpec::Name(n) => (n@, Seq::empty()),
        AttributeSpec::NameValue(n, v) => (n@, v@),
    }
}

pub open spec fn msg_requires_params() -> Seq<char> {
    "addAttributesToSVGElement plugin requires parameters"@
}

pub open spec fn msg_not_array() -> Seq<char> {
    "attributes parameter must be an array"@
}

pub open spec fn msg_none_given() -> Seq<char> {
    "addAttributesToSVGElement plugin requires either 'attribute' or 'attributes' parameter"@
}

pub open spec fn msg_one_pair() -> Seq<char> {
    "Attribute object must have exactly one key-value pair"@
}

pub open spec fn msg_bad_value() -> Seq<char> {
    "Attribute value must be string, number, boolean, or null"@
}

pub open spec fn msg_bad_spec() -> Seq<char> {
    "Attribute specification must be string or object"@
}

/// The attribute that a parameter names, or the message of its error.
pub open spec fn parsed_attribute(v: Value) -> Result<(Seq<char>, Seq<char>), Seq<char>> {
    match v {
        Value::String(n) => Ok((n@, Seq::empty())),
        Value::Object(m) => if m@.len() != 1 {
            Err(msg_one_pair())
        } else {
            match m@[0].1 {
                Value::String(s) => Ok((m@[0].0@, s@)),
                Value::Bool(b) => Ok((m@[0].0@, if b { "true"@ } else { "false"@ })),
                Value::Number(n) => Ok((m@[0].0@, n@)),
                Value::Null => Ok((m@[0].0@, Seq::empty())),
                _ => Err(msg_bad_value()),
            }
        },
        _ => Err(msg_bad_spec()),
    }
}

/// The attributes of a list of parameters, or the first error.
pub open spec fn parsed_attributes(items: Seq<Value>) -> Result<Seq<(Seq<char>, Seq<char>)>, Seq<char>>
    decreases items.len(),
{
    if items.len() == 0 {
        Ok(Seq::empty())
    } else {
        match parsed_attributes(items.drop_last()) {
            Err(m) => Err(m),
            Ok(ps) => match parsed_attribute(items.last()) {
                Ok(p) => Ok(ps.push(p)),
                Err(m) => Err(m),
            },
        }
    }
}

/// The attributes that the parameters ask for, or the message of the first
/// error: `attribute` first, then the items of `attributes`.
pub open spec fn attributes_from(params: Value) -> Result<Seq<(Seq<char>, Seq<char>)>, Seq<char>> {
    let first: Result<Seq<(Seq<char>, Seq<char>)>, Seq<char>> = match value_get(params, "attribute"@) {
        Some(a) => match parsed_attribute(a) {
            Ok(p) => Ok(seq![p]),
            Err(m) => Err(m),
        },
        None => Ok(Seq::empty()),
    };
    match first {
        Err(m) => Err(m),
        Ok(f) => {
            let rest: Result<Seq<(Seq<char>, Seq<char>)>, Seq<char>> = match value_get(params, "attributes"@) {
                Some(Value::Array(items)) => parsed_attributes(items@),
                Some(_) => Err(msg_not_array()),
                None => Ok(Seq::empty()),
            };
            match rest {
                Err(m) => Err(m),
                Ok(r) => if (f + r).len() == 0 { Err(msg_none_given()) } else { Ok(f + r) },
            }
        },
    }
}

/// The table after adding the missing attributes, in order.
pub open spec fn add_missing(a: Seq<(Seq<char>, Seq<char>)>, ps: Seq<(Seq<char>, Seq<char>)>) -> Seq<(Seq<char>, Seq<char>)>
    decreases ps.len(),
{
    if ps.len() == 0 {
        a
    } else {
        let b = add_missing(a, ps.drop_last());
        if entry_index(b, ps.last().0) >= 0 { b } else { entry_insert(b, ps.last().0, ps.last().1) }
    }
}

/// Whether a result is the configuration error with the given message.
pub open spec fn is_config_error<T>(r: Result<T, PluginError>, m: Seq<char>) -> bool {
    r matches Err(PluginError::InvalidConfig(x)) && x@ == m
}

fn config_error<T>(m: &str) -> (r: Result<T, PluginError>)
    ensures
        is_config_error(r, m@),
{
    Err(PluginError::InvalidConfig(owned(m)))
}

/// The attribute that a parameter names.
pub fn parse_attribute_spec(spec: &Value) -> (r: Result<AttributeSpec, PluginError>)
    ensures
        match parsed_attribute(*spec) {
            Ok(p) => r matches Ok(a) && spec_pair(a) == p,
            Err(m) => is_config_error(r, m),
        },
{
    match spec {
        Value::String(name) => Ok(AttributeSpec::Name(name.clone())),
        Value::Object(obj) => {
            if obj.len() != 1 {
                return config_error("Attribute object must have exactly one key-value pair");
            }
            let key = obj[0].0.clone();
            match &obj[0].1 {
                Value::String(s) => Ok(AttributeSpec::NameValue(key, s.clone())),
                Value::Bool(b) => Ok(AttributeSpec::NameValue(key, owned(if *b { "true" } else { "false" }))),
                Value::Number(n) => Ok(AttributeSpec::NameValue(key, n.clone())),
                Value::Null => Ok(AttributeSpec::NameValue(key, String::new())),
                _ => config_error("Attribute value must be string, number, boolean, or null"),
            }
        },
        _ => config_error("Attribute specification must be string or object"),
    }
}

impl AddAttributesConfig {
    /// The configuration that the parameters give.
    pub fn from_params(params: &Value) -> (r: Result<AddAttributesConfig, PluginError>)
        ensures
            match attributes_from(*params) {
                Ok(ps) => r matches Ok(c) && c.attributes@.map_values(|a: AttributeSpec| spec_pair(a)) == ps,
                Err(m) => is_config_error(r, m),
            },
    {
        let mut attributes: Vec<AttributeSpec> = Vec::new();
        match params.get("attribute") {
            Some(a) => {
                let s = parse_attribute_spec(a)?;
                attributes.push(s);
            },
            None => {},
        }
        let ghost first = attributes@.map_values(|a: AttributeSpec| spec_pair(a));
        assert(match value_get(*params, "attribute"@) {
            Some(a) => parsed_attribute(a) is Ok && first == seq![parsed_attribute(a)->Ok_0],
            None => first.len() == 0,
        }) by {
            if value_get(*params, "attribute"@) is None {
                assert(first =~= Seq::<(Seq<char>, Seq<char>)>::empty());
            }
        }
        match params.get("attributes") {
            Some(v) => match v {
                Value::Array(items) => {
                    let mut i: usize = 0;
                    while i < items.len()
                        invariant
                            i <= items@.len(),
                            value_get(*params, "attributes"@) == Some(Value::Array(*items)),
                            match value_get(*params, "attribute"@) {
                                Some(a) => parsed_attribute(a) is Ok && first == seq![parsed_attribute(a)->Ok_0],
                                None => first.len() == 0,
                            },
                            parsed_attributes(items@.take(i as int)) is Ok,
                            attributes@.map_values(|a: AttributeSpec| spec_pair(a))
                                == first + parsed_attributes(items@.take(i as int))->Ok_0,
                            forall|k: int| #![trigger items@.take(k)] 0 <= k <= i ==> parsed_attributes(items@.take(k)) is Ok,
                        decreases items.len() - i,
                    {
                        assert(items@.take(i + 1).drop_last() =~= items@.take(i as int));
                        let s = match parse_attribute_spec(&items[i]) {
                            Ok(s) => s,
                            Err(e) => {
                                proof {
                                    lemma_first_error(items@, i as int);
                                    assert(items@.take(items@.len() as int) =~= items@);
                                    assert(parsed_attributes(items@.take(items@.len() as int)) is Err);
                                }
                                return Err(e);
                            },
                        };
                        let ghost before = attributes@;
                        attributes.push(s);
                        assert(attributes@.map_values(|a: AttributeSpec| spec_pair(a))
                            =~= before.map_values(|a: AttributeSpec| spec_pair(a)).push(spec_pair(s)));
                        i = i + 1;
                    }
                    assert(items@.take(items@.len() as int) =~= items@);
                },
                _ => {
                    return config_error("attributes parameter must be an array");
                },
            },
            None => {
                assert(first + Seq::<(Seq<char>, Seq<char>)>::empty() =~= first);
            },
        }
        if attributes.len() == 0 {
            return config_error("addAttributesToSVGElement plugin requires either 'attribute' or 'attributes' parameter");
        }
        Ok(AddAttributesConfig { attributes })
    }
}

/// An error at item `i`, after good items, is the first error of the list.
proof fn lemma_first_error(items: Seq<Value>, i: int)
    requires
        0 <= i < items.len(),
        parsed_attributes(items.take(i)) is Ok,
        parsed_attribute(items[i]) is Err,
    ensures
        forall|n: int| i < n <= items.len() ==> #[trigger] parsed_attributes(items.take(n))
            == Err::<Seq<(Seq<char>, Seq<char>)>, Seq<char>>(parsed_attribute(items[i])->Err_0),
    decreases items.len() - i,
{
    assert forall|n: int| i < n <= items.len() implies #[trigger] parsed_attributes(items.take(n))
        == Err::<Seq<(Seq<char>, Seq<char>)>, Seq<char>>(parsed_attribute(items[i])->Err_0) by {
        lemma_error_persists(items, i, n);
    }
}

proof fn lemma_error_persists(items: Seq<Value>, i: int, n: int)
    requires
        0 <= i < n <= items.len(),
        parsed_attributes(items.take(i)) is Ok,
        parsed_attribute(items[i]) is Err,
    ensures
        parsed_attributes(items.take(n)) == Err::<Seq<(Seq<char>, Seq<char>)>, Seq<char>>(parsed_attribute(items[i])->Err_0),
    decreases n - i,
{
    assert(items.take(n).drop_last() =~= items.take(n - 1));
    if n > i + 1 {
        lemma_error_persists(items, i, n - 1);
    } else {
        assert(items.take(n).last() == items[i]);
    }
}

/// Adds the attributes that the element does not have yet.
pub fn add_attributes_to_element(element: &mut Element, config: &AddAttributesConfig)
    ensures
        attr_entries(final(element).attributes) == add_missing(attr_entries(old(element).attributes),
            config.attributes@.map_values(|a: AttributeSpec| spec_pair(a))),
        final(element).name == old(element).name,
        final(element).children == old(element).children,
        final(element).namespaces == old(element).namespaces,
{
    let ghost ps = config.attributes@.map_values(|a: AttributeSpec| spec_pair(a));
    let ghost a0 = attr_entries(element.attributes);
    let mut i: usize = 0;
    while i < config.attributes.len()
        invariant
            i <= config.attributes@.len(),
            ps == config.attributes@.map_values(|a: AttributeSpec| spec_pair(a)),
            attr_entries(element.attributes) == add_missing(a0, ps.take(i as int)),
            element.name == old(element).name,
            element.children == old(element).children,
            element.namespaces == old(element).namespaces,
        decreases config.attributes.len() - i,
    {
        assert(ps.take(i + 1).drop_last() =~= ps.take(i as int));
        let (name, value) = match &config.attributes[i] {
            AttributeSpec::Name(n) => (n, String::new()),
            AttributeSpec::NameValue(n, v) => (n, v.clone()),
        };
        if !element.has_attr(name.as_str()) {
            element.set_attr(name.clone(), value);
        }
        i = i + 1;
    }
    assert(ps.take(ps.len() as int) =~= ps);
}

impl Plugin for AddAttributesToSVGElementPlugin {
    fn name(&self) -> (r: &'static str)
        ensures
            r@ == "addAttributesToSVGElement"@,
    {
        "addAttributesToSVGElement"
    }

    fn description(&self) -> (r: &'static str)
        ensures
            r@ == "adds attributes to an outer <svg> element"@,
    {
        "adds attributes to an outer <svg> element"
    }

    fn apply(&mut self, document: &mut Document, plugin_info: &PluginInfo, params: Option<&Value>) -> (r: PluginResult<()>)
        ensures
            match opt_value(params) {
                None => is_config_error(r, msg_requires_params()) && *final(document) == *old(document),
                Some(p) => match attributes_from(p) {
                    Err(m) => is_config_error(r, m) && *final(document) == *old(document),
                    Ok(ps) => r is Ok
                        && attr_entries(final(document).root.attributes) == (if old(document).root.name@ == "svg"@ {
                            add_missing(attr_entries(old(document).root.attributes), ps)
                        } else {
                            attr_entries(old(document).root.attributes)
                        })
                        && final(document).root.name == old(document).root.name
                        && final(document).root.children == old(document).root.children
                        && final(document).prologue == old(document).prologue
                        && final(document).epilogue == old(document).epilogue
                        && final(document).metadata == old(document).metadata,
                },
            },
    {
        let p = match params {
            Some(p) => p,
            None => return config_error("addAttributesToSVGElement plugin requires parameters"),
        };
        let config = AddAttributesConfig::from_params(p)?;
        if str_eq(document.root.name.as_str(), "svg") {
            add_attributes_to_element(&mut document.root, &config);
        }
        Ok(())
    }

    fn validate_params(&self, params: Option<&Value>) -> (r: PluginResult<()>)
        ensures
            match opt_value(params) {
                None => is_config_error(r, msg_requires_params()),
                Some(p) => match attributes_from(p) {
                    Err(m) => is_config_error(r, m),
                    Ok(_) => r is Ok,
                },
            },
    {
        match params {
            Some(p) => {
                AddAttributesConfig::from_params(p)?;
                Ok(())
            },
            None => config_error("addAttributesToSVGElement plugin requires parameters"),
        }
    }
}

} // verus!
