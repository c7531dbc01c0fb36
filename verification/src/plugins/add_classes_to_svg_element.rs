//! Adds class names to the outer `<svg>` element.  The class attribute then
//! holds each class once, sorted.

use vstd::prelude::*;
use crate::ast::{Document, Element, attr_entries, entry_insert, entry_lookup};
use crate::plugin::{Plugin, PluginError, PluginInfo, PluginResult};
use crate::plugins::add_attributes_to_svg_element::is_config_error;
use crate::plugins::remove_elements_by_attr::strings_in;
use crate::strings::{join, join_strings, owned, split_whitespace, str_eq, to_chars, words};
use crate::value::{Value, opt_value, value_get};

verus! {

/// The plugin that adds class names to the `<svg>` element.
pub struct AddClassesToSVGElementPlugin;

/// The class names to add, in order.
#[derive(Debug)]
pub struct AddClassesConfig {
    pub class_names: Vec<String>,
}

/// The order of strings: character by character, a proper prefix first.
pub open spec fn lex_lt(a: Seq<char>, b: Seq<char>) -> bool
    decreases a.len(),
{
    if a.len() == 0 {
        b.len() > 0
    } else if b.len() == 0 {
        false
    } else if a[0] != b[0] {
        (a[0] as int) < (b[0] as int)
    } else {
        lex_lt(a.drop_first(), b.drop_first())
    }
}

/// No string is before itself, and of two strings at most one is before
/// the other.
pub proof fn lemma_lex_asymmetric(a: Seq<char>, b: Seq<char>)
    ensures
        !(lex_lt(a, b) && lex_lt(b, a)),
        !lex_lt(a, a),
    decreases a.len(),
{
    if a.len() > 0 && b.len() > 0 && a[0] == b[0] {
        lemma_lex_asymmetric(a.drop_first(), b.drop_first());
    }
    if a.len() > 0 {
        lemma_lex_asymmetric(a.drop_first(), a.drop_first());
    }
}

/// Of two different strings one is before the other.
pub proof fn lemma_lex_total(a: Seq<char>, b: Seq<char>)
    requires
        a != b,
    ensures
        lex_lt(a, b) || lex_lt(b, a),
    decreases a.len(),
{
    if a.len() == 0 || b.len() == 0 {
        if a.len() == 0 && b.len() == 0 {
            assert(a =~= b);
        }
    } else if a[0] != b[0] {
        assert((a[0] as int) != (b[0] as int));
    } else {
        if a.drop_first() == b.drop_first() {
            assert(a.drop_first().len() == b.drop_first().len());
            assert(a.len() == b.len());
            assert forall|k: int| 0 <= k < a.len() implies a[k] == b[k] by {
                if k > 0 { assert(a[k] == a.drop_first()[k - 1]); assert(b[k] == b.drop_first()[k - 1]); }
            }
            assert(a =~= b);
        }
        lemma_lex_total(a.drop_first(), b.drop_first());
    }
}

/// The order is transitive.
pub proof fn lemma_lex_transitive(a: Seq<char>, b: Seq<char>, c: Seq<char>)
    requires
        lex_lt(a, b),
        lex_lt(b, c),
    ensures
        lex_lt(a, c),
    decreases a.len(),
{
    if a.len() > 0 && b.len() > 0 && c.len() > 0 && a[0] == b[0] && b[0] == c[0] {
        lemma_lex_transitive(a.drop_first(), b.drop_first(), c.drop_first());
    }
}

/// Whether each string is before the next, so none occurs twice.
pub open spec fn strictly_sorted(l: Seq<Seq<char>>) -> bool {
    forall|i: int, j: int| 0 <= i < j < l.len() ==> lex_lt(#[trigger] l[i], #[trigger] l[j])
}

/// Two strictly sorted lists of the same strings are the same list.
pub proof fn lemma_sorted_unique(l1: Seq<Seq<char>>, l2: Seq<Seq<char>>)
    requires
        strictly_sorted(l1),
        strictly_sorted(l2),
        l1.to_set() == l2.to_set(),
    ensures
        l1 == l2,
    decreases l1.len() + l2.len(),
{
    if l1.len() == 0 {
        if l2.len() > 0 {
            assert(l2.to_set().contains(l2[0]));
        }
        assert(l1 =~= l2);
    } else if l2.len() == 0 {
        assert(l1.to_set().contains(l1[0]));
    } else {
        let a = l1.last();
        let b = l2.last();
        assert(l1.to_set().contains(a));
        assert(l2.to_set().contains(b));
        let i = choose|i: int| 0 <= i < l2.len() && l2[i] == a;
        let j = choose|j: int| 0 <= j < l1.len() && l1[j] == b;
        if a != b {
            if i < l2.len() - 1 {
                if j < l1.len() - 1 {
                    lemma_lex_asymmetric(a, b);
                }
            }
        }
        assert(a == b) by {
            if a != b {
                if j < l1.len() - 1 && i < l2.len() - 1 {
                    lemma_lex_asymmetric(a, b);
                }
                if j == l1.len() - 1 { assert(l1[j] == a); }
                if i == l2.len() - 1 { assert(l2[i] == b); }
            }
        }
        let s1 = l1.drop_last();
        let s2 = l2.drop_last();
        assert forall|x: Seq<char>| s1.to_set().contains(x) implies s2.to_set().contains(x) by {
            let k = choose|k: int| 0 <= k < s1.len() && s1[k] == x;
            assert(l1[k] == x);
            assert(l1.to_set().contains(x));
            let m = choose|m: int| 0 <= m < l2.len() && l2[m] == x;
            if m == l2.len() - 1 {
                lemma_lex_asymmetric(x, x);
                assert(lex_lt(l1[k], l1[l1.len() - 1]));
            }
            assert(s2[m] == x);
        }
        assert forall|x: Seq<char>| s2.to_set().contains(x) implies s1.to_set().contains(x) by {
            let k = choose|k: int| 0 <= k < s2.len() && s2[k] == x;
            assert(l2[k] == x);
            assert(l2.to_set().contains(x));
            let m = choose|m: int| 0 <= m < l1.len() && l1[m] == x;
            if m == l1.len() - 1 {
                lemma_lex_asymmetric(x, x);
                assert(lex_lt(l2[k], l2[l2.len() - 1]));
            }
            assert(s1[m] == x);
        }
        assert(s1.to_set() =~= s2.to_set());
        lemma_sorted_unique(s1, s2);
        assert(l1 =~= s1.push(a));
        assert(l2 =~= s2.push(b));
    }
}

/// Whether `a` is before `b`.
pub fn lex_less(a: &str, b: &str) -> (r: bool)
    ensures
        r == lex_lt(a@, b@),
{
    let x = to_chars(a);
    let y = to_chars(b);
    let mut i: usize = 0;
    assert(x@.skip(0) =~= x@);
    assert(y@.skip(0) =~= y@);
    while i < x.len() && i < y.len() && x[i] == y[i]
        invariant
            i <= x@.len(), i <= y@.len(),
            lex_lt(a@, b@) == lex_lt(x@.skip(i as int), y@.skip(i as int)),
            x@ == a@, y@ == b@,
        decreases x.len() - i,
    {
        assert(x@.skip(i as int).drop_first() =~= x@.skip(i + 1));
        assert(y@.skip(i as int).drop_first() =~= y@.skip(i + 1));
        i = i + 1;
    }
    if i == x.len() {
        i < y.len()
    } else if i == y.len() {
        false
    } else {
        x[i] < y[i]
    }
}

pub open spec fn views(l: Seq<String>) -> Seq<Seq<char>> {
    l.map_values(|s: String| s@)
}

/// Puts `x` into a strictly sorted list unless it is there.
pub fn insert_sorted(list: &mut Vec<String>, x: String)
    requires
        strictly_sorted(views(old(list)@)),
    ensures
        strictly_sorted(views(final(list)@)),
        views(final(list)@).to_set() == views(old(list)@).to_set().insert(x@),
{
    let ghost l0 = views(list@);
    let mut p: usize = 0;
    while p < list.len() && lex_less(list[p].as_str(), x.as_str())
        invariant
            p <= list@.len(),
            l0 == views(list@),
            forall|k: int| 0 <= k < p ==> lex_lt(#[trigger] l0[k], x@),
        decreases list.len() - p,
    {
        p = p + 1;
    }
    if p < list.len() && str_eq(list[p].as_str(), x.as_str()) {
        assert(l0.to_set().insert(x@) =~= l0.to_set()) by {
            assert(l0[p as int] == x@);
        }
        return;
    }
    proof {
        if p < l0.len() {
            lemma_lex_total(l0[p as int], x@);
        }
    }
    let ghost xv = x@;
    list.insert(p, x);
    let ghost l1 = views(list@);
    assert(l1 =~= l0.insert(p as int, xv));
    assert forall|i: int, j: int| 0 <= i < j < l1.len() implies lex_lt(#[trigger] l1[i], #[trigger] l1[j]) by {
        if j < p {
        } else if j == p {
            assert(l1[i] == l0[i]);
        } else if i == p {
            assert(l1[j] == l0[j - 1]);
            if j - 1 > p {
                lemma_lex_transitive(xv, l0[p as int], l0[j - 1]);
            }
        } else if i < p {
            assert(l1[i] == l0[i]);
            assert(l1[j] == l0[j - 1]);
        } else {
            assert(l1[i] == l0[i - 1]);
            assert(l1[j] == l0[j - 1]);
        }
    }
    assert forall|y: Seq<char>| l1.to_set().contains(y) <==> l0.to_set().insert(xv).contains(y) by {
        if l1.to_set().contains(y) {
            let k = choose|k: int| 0 <= k < l1.len() && l1[k] == y;
            if k < p { assert(l0[k] == y); } else if k > p { assert(l0[k - 1] == y); }
        }
        if l0.to_set().contains(y) {
            let k = choose|k: int| 0 <= k < l0.len() && l0[k] == y;
            if k < p { assert(l1[k] == y); } else { assert(l1[k + 1] == y); }
        }
        if y == xv {
            assert(l1[p as int] == xv);
        }
    }
    assert(l1.to_set() =~= l0.to_set().insert(xv));
}

/// The classes that the element ends with: its own and the added ones, the
/// empty ones left out.
pub open spec fn wanted_classes(existing: Option<Seq<char>>, names: Seq<Seq<char>>) -> Set<Seq<char>> {
    let own = match existing {
        Some(c) => Set::new(|w: Seq<char>| words(c).contains(w) && w.len() > 0),
        None => Set::empty(),
    };
    own.union(Set::new(|w: Seq<char>| names.contains(w) && w.len() > 0))
}

/// Whether `v` is the class attribute made of the classes `s`: each once,
/// sorted, separated by single spaces.
pub open spec fn is_class_value(v: Seq<char>, s: Set<Seq<char>>) -> bool {
    exists|l: Seq<Seq<char>>| strictly_sorted(l) && l.to_set() == s && v == join(l, " "@)
}

pub open spec fn msg_class_requires_params() -> Seq<char> {
    "addClassesToSVGElement plugin requires parameters"@
}

pub open spec fn msg_class_name_string() -> Seq<char> {
    "className parameter must be a string"@
}

pub open spec fn msg_all_strings() -> Seq<char> {
    "All classNames must be strings"@
}

pub open spec fn msg_class_names_array() -> Seq<char> {
    "classNames parameter must be an array"@
}

pub open spec fn msg_class_none_given() -> Seq<char> {
    "addClassesToSVGElement plugin requires either 'className' or 'classNames' parameter"@
}

/// Whether every item is a string.
pub open spec fn all_strings(items: Seq<Value>) -> bool {
    forall|i: int| 0 <= i < items.len() ==> #[trigger] items[i] is String
}

/// The class names that the parameters give, or the message of the first
/// error.
pub open spec fn class_names_from(params: Value) -> Result<Seq<Seq<char>>, Seq<char>> {
    let first: Result<Seq<Seq<char>>, Seq<char>> = match value_get(params, "className"@) {
        Some(Value::String(s)) => Ok(seq![s@]),
        Some(_) => Err(msg_class_name_string()),
        None => Ok(Seq::empty()),
    };
    match first {
        Err(m) => Err(m),
        Ok(f) => {
            let rest: Result<Seq<Seq<char>>, Seq<char>> = match value_get(params, "classNames"@) {
                Some(Value::Array(items)) => if all_strings(items@) {
                    Ok(strings_in(items@))
                } else {
                    Err(msg_all_strings())
                },
                Some(_) => Err(msg_class_names_array()),
                None => Ok(Seq::empty()),
            };
            match rest {
                Err(m) => Err(m),
                Ok(r) => if (f + r).len() == 0 { Err(msg_class_none_given()) } else { Ok(f + r) },
            }
        },
    }
}

fn class_error<T>(m: &str) -> (r: Result<T, PluginError>)
    ensures
        is_config_error(r, m@),
{
    Err(PluginError::InvalidConfig(owned(m)))
}

impl AddClassesConfig {
    /// The configuration that the parameters give.
    pub fn from_params(params: &Value) -> (r: Result<AddClassesConfig, PluginError>)
        ensures
            match class_names_from(*params) {
                Ok(ns) => r matches Ok(c) && views(c.class_names@) == ns,
                Err(m) => is_config_error(r, m),
            },
    {
        let mut class_names: Vec<String> = Vec::new();
        match params.get("className") {
            Some(Value::String(s)) => class_names.push(s.clone()),
            Some(_) => return class_error("className parameter must be a string"),
            None => {},
        }
        let ghost first = views(class_names@);
        assert(first == match value_get(*params, "className"@) {
            Some(Value::String(s)) => seq![s@],
            _ => Seq::<Seq<char>>::empty(),
        });
        match params.get("classNames") {
            Some(Value::Array(items)) => {
                let mut i: usize = 0;
                while i < items.len()
                    invariant
                        i <= items@.len(),
                        value_get(*params, "classNames"@) == Some(Value::Array(*items)),
                        value_get(*params, "className"@) is None || value_get(*params, "className"@) matches Some(Value::String(_)),
                        all_strings(items@.take(i as int)),
                        views(class_names@) == first + strings_in(items@.take(i as int)),
                    decreases items.len() - i,
                {
                    assert(items@.take(i + 1).drop_last() =~= items@.take(i as int));
                    match &items[i] {
                        Value::String(s) => {
                            let ghost before = class_names@;
                            class_names.push(s.clone());
                            assert(views(class_names@) =~= views(before).push(s@));
                            assert(all_strings(items@.take(i + 1))) by {
                                assert forall|k: int| 0 <= k < i + 1 implies #[trigger] items@.take(i + 1)[k] is String by {
                                    if k < i { assert(items@.take(i + 1)[k] == items@.take(i as int)[k]); }
                                }
                            }
                        },
                        _ => {
                            assert(!all_strings(items@)) by {
                                assert(!(items@[i as int] is String));
                            }
                            return class_error("All classNames must be strings");
                        },
                    }
                    i = i + 1;
                }
                assert(items@.take(items@.len() as int) =~= items@);
            },
            Some(_) => return class_error("classNames parameter must be an array"),
            None => {
                assert(first + Seq::<Seq<char>>::empty() =~= first);
            },
        }
        if class_names.len() == 0 {
            return class_error("addClassesToSVGElement plugin requires either 'className' or 'classNames' parameter");
        }
        Ok(AddClassesConfig { class_names })
    }
}

/// Sets the class attribute to the element's classes and the added ones,
/// each once, sorted.
pub fn add_classes_to_element(element: &mut Element, config: &AddClassesConfig)
    ensures
        ({
            let v = entry_lookup(attr_entries(final(element).attributes), "class"@);
            &&& v is Some
            &&& is_class_value(v->0, wanted_classes(entry_lookup(attr_entries(old(element).attributes), "class"@),
                    views(config.class_names@)))
        }),
        attr_entries(final(element).attributes) == entry_insert(attr_entries(old(element).attributes), "class"@,
            entry_lookup(attr_entries(final(element).attributes), "class"@)->0),
        final(element).name == old(element).name,
        final(element).children == old(element).children,
        final(element).namespaces == old(element).namespaces,
{
    let ghost existing = entry_lookup(attr_entries(element.attributes), "class"@);
    let ghost names = views(config.class_names@);
    let ghost own: Set<Seq<char>> = match existing {
        Some(c) => Set::new(|w: Seq<char>| words(c).contains(w) && w.len() > 0),
        None => Set::empty(),
    };
    let mut list: Vec<String> = Vec::new();
    assert(views(list@).to_set() =~= Set::<Seq<char>>::empty());
    match element.attr("class") {
        Some(c) => {
            let ws = split_whitespace(c.as_str());
            let ghost wv = words(c@);
            let mut i: usize = 0;
            while i < ws.len()
                invariant
                    i <= ws@.len(), ws@.len() == wv.len(),
                    forall|k: int| 0 <= k < ws@.len() ==> (#[trigger] ws@[k])@ == wv[k],
                    strictly_sorted(views(list@)),
                    views(list@).to_set() == Set::new(|w: Seq<char>| wv.take(i as int).contains(w) && w.len() > 0),
                decreases ws.len() - i,
            {
                let ghost before = views(list@).to_set();
                if !ws[i].as_str().is_empty() {
                    insert_sorted(&mut list, ws[i].clone());
                }
                proof {
                    assert forall|w: Seq<char>| views(list@).to_set().contains(w) <==>
                        (wv.take(i + 1).contains(w) && w.len() > 0) by {
                        if wv.take(i + 1).contains(w) {
                            let k = choose|k: int| 0 <= k < i + 1 && #[trigger] wv.take(i + 1)[k] == w;
                            if k < i { assert(wv.take(i as int)[k] == w); }
                        }
                        if wv.take(i as int).contains(w) {
                            let k = choose|k: int| 0 <= k < i && #[trigger] wv.take(i as int)[k] == w;
                            assert(wv.take(i + 1)[k] == w);
                        }
                        assert(wv.take(i + 1)[i as int] == wv[i as int]);
                    }
                    assert(views(list@).to_set() =~= Set::new(|w: Seq<char>| wv.take(i + 1).contains(w) && w.len() > 0));
                }
                i = i + 1;
            }
            assert(wv.take(wv.len() as int) =~= wv);
            assert(views(list@).to_set() =~= own);
        },
        None => {
            assert(views(list@).to_set() =~= own);
        },
    }
    let mut j: usize = 0;
    while j < config.class_names.len()
        invariant
            j <= config.class_names@.len(),
            names == views(config.class_names@),
            strictly_sorted(views(list@)),
            views(list@).to_set() == own.union(Set::new(|w: Seq<char>| names.take(j as int).contains(w) && w.len() > 0)),
        decreases config.class_names.len() - j,
    {
        if !config.class_names[j].as_str().is_empty() {
            insert_sorted(&mut list, config.class_names[j].clone());
        }
        proof {
            assert(names[j as int] == config.class_names@[j as int]@);
            assert forall|w: Seq<char>| views(list@).to_set().contains(w) <==>
                own.union(Set::new(|w: Seq<char>| names.take(j + 1).contains(w) && w.len() > 0)).contains(w) by {
                if names.take(j + 1).contains(w) {
                    let k = choose|k: int| 0 <= k < j + 1 && #[trigger] names.take(j + 1)[k] == w;
                    if k < j { assert(names.take(j as int)[k] == w); }
                }
                if names.take(j as int).contains(w) {
                    let k = choose|k: int| 0 <= k < j && #[trigger] names.take(j as int)[k] == w;
                    assert(names.take(j + 1)[k] == w);
                }
                assert(names.take(j + 1)[j as int] == names[j as int]);
            }
            assert(views(list@).to_set() =~= own.union(Set::new(|w: Seq<char>| names.take(j + 1).contains(w) && w.len() > 0)));
        }
        j = j + 1;
    }
    assert(names.take(names.len() as int) =~= names);
    let class_string = join_strings(&list, " ");
    assert(list@.map_values(|p: String| p@) == views(list@));
    element.set_attr(owned("class"), class_string);
    proof {
        crate::ast::lemma_entry_insert_lookup(attr_entries(old(element).attributes), "class"@, class_string@);
        let l = views(list@);
        assert(strictly_sorted(l) && l.to_set() == wanted_classes(existing, names) && class_string@ == join(l, " "@));
    }
}

impl Plugin for AddClassesToSVGElementPlugin {
    fn name(&self) -> (r: &'static str)
        ensures
            r@ == "addClassesToSVGElement"@,
    {
        "addClassesToSVGElement"
    }

    fn description(&self) -> (r: &'static str)
        ensures
            r@ == "adds classnames to an outer <svg> element"@,
    {
        "adds classnames to an outer <svg> element"
    }

    fn apply(&mut self, document: &mut Document, plugin_info: &PluginInfo, params: Option<&Value>) -> (r: PluginResult<()>)
        ensures
            match opt_value(params) {
                None => is_config_error(r, msg_class_requires_params()) && *final(document) == *old(document),
                Some(p) => match class_names_from(p) {
                    Err(m) => is_config_error(r, m) && *final(document) == *old(document),
                    Ok(ns) => r is Ok
                        && (old(document).root.name@ == "svg"@ ==> ({
                            let v = entry_lookup(attr_entries(final(document).root.attributes), "class"@);
                            &&& v is Some
                            &&& is_class_value(v->0, wanted_classes(
                                    entry_lookup(attr_entries(old(document).root.attributes), "class"@), ns))
                            &&& attr_entries(final(document).root.attributes)
                                == entry_insert(attr_entries(old(document).root.attributes), "class"@, v->0)
                        }))
                        && (old(document).root.name@ != "svg"@ ==> final(document).root == old(document).root)
                        && final(document).root.name == old(document).root.name
                        && final(document).root.children == old(document).root.children
                        && final(document).prologue == old(document).prologue
                        && final(document).epilogue == old(document).epilogue
                        && final(document).metadata == old(document).metadata,
                },
            },
    {
        let p = match params {
            Some(p) => p,
            None => return class_error("addClassesToSVGElement plugin requires parameters"),
        };
        let config = AddClassesConfig::from_params(p)?;
        if str_eq(document.root.name.as_str(), "svg") {
            add_classes_to_element(&mut document.root, &config);
        }
        Ok(())
    }

    fn validate_params(&self, params: Option<&Value>) -> (r: PluginResult<()>)
        ensures
            match opt_value(params) {
                None => is_config_error(r, msg_class_requires_params()),
                Some(p) => match class_names_from(p) {
                    Err(m) => is_config_error(r, m),
                    Ok(_) => r is Ok,
                },
            },
    {
        match params {
            Some(p) => {
                AddClassesConfig::from_params(p)?;
                Ok(())
            },
            None => class_error("addClassesToSVGElement plugin requires parameters"),
        }
    }
}

} // verus!
