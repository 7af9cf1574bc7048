//! The choice of the checks of a partial run.
//!
//! A run may be restricted to some of the known modules. They are given by
//! their names in one text, separated by commas, as in `CWE332,CWE476`.

use vstd::hash_set::StringHashSet;
use vstd::prelude::*;
use vstd::string::*;

verus! {

/// The parts of `text` that lie between its commas, in their order. A text
/// without a comma has one part, the text itself.
pub open spec fn comma_separated(text: Seq<char>) -> Seq<Seq<char>>
    decreases text.len(),
{
    if text.len() == 0 {
        seq![Seq::<char>::empty()]
    } else {
        let front = comma_separated(text.drop_last());
        if text.last() == ',' {
            front.push(Seq::<char>::empty())
        } else {
            front.drop_last().push(front.last().push(text.last()))
        }
    }
}

/// The texts of a list of strings.
pub open spec fn names_of(strings: Seq<String>) -> Seq<Seq<char>> {
    strings.map_values(|name: String| name@)
}

/// The first of the `listed` names that is neither empty nor the name of
/// one of the `modules`.
pub open spec fn first_unknown(listed: Seq<Seq<char>>, modules: Seq<Seq<char>>) -> Option<
    Seq<char>,
>
    decreases listed.len(),
{
    if listed.len() == 0 {
        None
    } else if listed.first().len() > 0 && !modules.contains(listed.first()) {
        Some(listed.first())
    } else {
        first_unknown(listed.drop_first(), modules)
    }
}

/// The names of the `modules` that are `listed`, in the order of the
/// modules, each name once.
pub open spec fn selected(modules: Seq<Seq<char>>, listed: Seq<Seq<char>>) -> Seq<Seq<char>>
    decreases modules.len(),
{
    if modules.len() == 0 {
        Seq::<Seq<char>>::empty()
    } else {
        let front = selected(modules.drop_last(), listed);
        if listed.contains(modules.last()) && !front.contains(modules.last()) {
            front.push(modules.last())
        } else {
            front
        }
    }
}

/// A name is selected if and only if it is the name of a module and
/// listed, and no name is selected twice.
pub proof fn lemma_selected(modules: Seq<Seq<char>>, listed: Seq<Seq<char>>)
    ensures
        forall|name: Seq<char>| #[trigger]
            selected(modules, listed).contains(name) <==> modules.contains(name)
                && listed.contains(name),
        selected(modules, listed).no_duplicates(),
    decreases modules.len(),
{
    let chosen = selected(modules, listed);
    if modules.len() > 0 {
        let front = modules.drop_last();
        let last = modules.last();
        lemma_selected(front, listed);
        assert forall|name: Seq<char>| #[trigger]
            chosen.contains(name) <==> modules.contains(name) && listed.contains(name) by {
            if chosen.contains(name) {
                let i: int = choose|i: int| 0 <= i < chosen.len() && chosen[i] == name;
                if i < selected(front, listed).len() {
                    assert(selected(front, listed)[i] == name);
                    assert(selected(front, listed).contains(name));
                    let j: int = choose|j: int| 0 <= j < front.len() && front[j] == name;
                    assert(modules[j] == name);
                } else {
                    assert(name == last);
                    assert(modules[modules.len() - 1] == name);
                }
            }
            if modules.contains(name) && listed.contains(name) {
                let j: int = choose|j: int| 0 <= j < modules.len() && modules[j] == name;
                if j < front.len() {
                    assert(front[j] == name);
                    assert(selected(front, listed).contains(name));
                    let i: int = choose|i: int|
                        0 <= i < selected(front, listed).len() && selected(front, listed)[i]
                            == name;
                    assert(chosen[i] == name);
                } else {
                    if selected(front, listed).contains(name) {
                        let i: int = choose|i: int|
                            0 <= i < selected(front, listed).len() && selected(front, listed)[i]
                                == name;
                        assert(chosen[i] == name);
                    } else {
                        assert(chosen[chosen.len() - 1] == name);
                    }
                }
            }
        }
    }
}

/// The parts of `text` between its commas, see [`comma_separated`].
pub fn split_at_commas(text: &str) -> (parts: Vec<String>)
    ensures
        names_of(parts@) == comma_separated(text@),
{
    let length: usize = text.unicode_len();
    let mut parts: Vec<String> = Vec::new();
    let mut start: usize = 0;
    let mut index: usize = 0;
    proof {
        assert(text@.take(0).len() == 0);
        assert(text@.subrange(0, 0) =~= Seq::<char>::empty());
        assert(names_of(parts@).push(text@.subrange(0, 0)) =~= seq![Seq::<char>::empty()]);
    }
    while index < length
        invariant
            start <= index <= length,
            length == text@.len(),
            comma_separated(text@.take(index as int)) == names_of(parts@).push(
                text@.subrange(start as int, index as int),
            ),
        decreases length - index,
    {
        let ghost before = text@.take(index as int);
        let ghost after = text@.take(index + 1);
        proof {
            assert(after.drop_last() =~= before);
            assert(after.last() == text@[index as int]);
        }
        if text.get_char(index) == ',' {
            let part = text.substring_char(start, index).to_owned();
            parts.push(part);
            start = index + 1;
            proof {
                assert(names_of(parts@) =~= comma_separated(before));
                assert(text@.subrange(start as int, index + 1) =~= Seq::<char>::empty());
            }
        } else {
            proof {
                assert(comma_separated(before).drop_last() =~= names_of(parts@));
                assert(text@.subrange(start as int, index + 1) =~= text@.subrange(
                    start as int,
                    index as int,
                ).push(text@[index as int]));
            }
        }
        index = index + 1;
    }
    let part = text.substring_char(start, length).to_owned();
    parts.push(part);
    proof {
        assert(text@.take(length as int) =~= text@);
        assert(names_of(parts@) =~= comma_separated(text@));
    }
    parts
}

/// Whether `name` is one of the `names`.
fn contains_name(names: &Vec<String>, name: &String) -> (found: bool)
    ensures
        found == names_of(names@).contains(name@),
{
    let mut index: usize = 0;
    while index < names.len()
        invariant
            index <= names.len(),
            forall|i: int| 0 <= i < index ==> names_of(names@)[i] != name@,
        decreases names.len() - index,
    {
        if names[index] == *name {
            assert(names_of(names@)[index as int] == name@);
            return true;
        }
        index = index + 1;
    }
    false
}

/// The set of the given names.
fn set_of_names(names: &Vec<String>) -> (set: StringHashSet)
    ensures
        forall|name: Seq<char>| set@.contains(name) <==> names_of(names@).contains(name),
{
    let mut set = StringHashSet::new();
    let mut index: usize = 0;
    while index < names.len()
        invariant
            index <= names.len(),
            forall|name: Seq<char>|
                set@.contains(name) <==> names_of(names@).take(index as int).contains(name),
        decreases names.len() - index,
    {
        let ghost before = names_of(names@).take(index as int);
        let ghost after = names_of(names@).take(index + 1);
        let ghost added = names@[index as int]@;
        proof {
            assert(after =~= before.push(added));
            assert forall|name: Seq<char>|
                after.contains(name) <==> before.contains(name) || name == added by {
                if before.contains(name) {
                    let i: int = choose|i: int| 0 <= i < before.len() && before[i] == name;
                    assert(after[i] == name);
                }
                if name == added {
                    assert(after[index as int] == name);
                }
                if after.contains(name) {
                    let i: int = choose|i: int| 0 <= i < after.len() && after[i] == name;
                    if i < index {
                        assert(before[i] == name);
                    }
                }
            }
        }
        set.insert(names[index].clone());
        index = index + 1;
    }
    assert(names_of(names@).take(index as int) =~= names_of(names@));
    set
}

/// The first name that the parameter lists and no module has, see
/// [`first_unknown`], or `None` where every listed name is the name of a
/// module. An empty part of the parameter lists nothing.
pub fn find_unknown_module(modules: &Vec<String>, partial_param: &str) -> (unknown: Option<
    String,
>)
    ensures
        match unknown {
            Some(name) => first_unknown(comma_separated(partial_param@), names_of(modules@))
                == Some(name@),
            None => first_unknown(comma_separated(partial_param@), names_of(modules@)) is None,
        },
{
    let listed = split_at_commas(partial_param);
    let ghost known = names_of(modules@);
    let mut index: usize = 0;
    assert(names_of(listed@).skip(0) =~= names_of(listed@));
    while index < listed.len()
        invariant
            index <= listed.len(),
            known == names_of(modules@),
            names_of(listed@) == comma_separated(partial_param@),
            first_unknown(names_of(listed@), known) == first_unknown(
                names_of(listed@).skip(index as int),
                known,
            ),
        decreases listed.len() - index,
    {
        let ghost rest = names_of(listed@).skip(index as int);
        proof {
            assert(rest.first() == listed@[index as int]@);
            assert(rest.drop_first() =~= names_of(listed@).skip(index + 1));
        }
        if !listed[index].as_str().is_empty() && !contains_name(modules, &listed[index]) {
            return Some(listed[index].clone());
        }
        index = index + 1;
    }
    None
}

/// Only keep the modules specified by the `--partial` parameter in the `modules` list.
/// The parameter is a comma-separated list of module names, e.g. 'CWE332,CWE476,CWE782'.
///
/// The modules are given by their names. Those that the parameter lists
/// stay, in their order, each name once. An empty part of the parameter
/// lists nothing. Every other part must be the name of a module;
/// [`find_unknown_module`] tests that.
pub fn filter_modules_for_partial_run(modules: &mut Vec<String>, partial_param: &str)
    requires
        first_unknown(comma_separated(partial_param@), names_of(old(modules)@)) is None,
    ensures
        names_of(final(modules)@) == selected(
            names_of(old(modules)@),
            comma_separated(partial_param@),
        ),
{
    let listed = split_at_commas(partial_param);
    let module_names = set_of_names(&listed);
    let ghost known = names_of(modules@);
    let mut kept: Vec<String> = Vec::new();
    let mut index: usize = 0;
    while index < modules.len()
        invariant
            index <= modules.len(),
            known == names_of(modules@),
            names_of(listed@) == comma_separated(partial_param@),
            forall|name: Seq<char>|
                module_names@.contains(name) <==> names_of(listed@).contains(name),
            names_of(kept@) == selected(known.take(index as int), names_of(listed@)),
        decreases modules.len() - index,
    {
        proof {
            assert(known.take(index + 1).drop_last() =~= known.take(index as int));
            assert(known.take(index + 1).last() == modules@[index as int]@);
        }
        if module_names.contains(modules[index].as_str()) && !contains_name(
            &kept,
            &modules[index],
        ) {
            kept.push(modules[index].clone());
            assert(names_of(kept@) =~= selected(known.take(index + 1), names_of(listed@)));
        }
        index = index + 1;
    }
    assert(known.take(index as int) =~= known);
    *modules = kept;
}

/// Whether a module runs where no modules were asked for by name. The
/// check `CWE78` does not: it takes much memory and time on some binaries.
pub open spec fn runs_by_default(name: Seq<char>) -> bool {
    name != "CWE78"@
}

/// Whether a module works on the results of the pointer inference.
pub open spec fn uses_pointer_inference(name: Seq<char>) -> bool {
    name == "CWE78"@ || name == "CWE476"@ || name == "Memory"@
}

/// Only keep the modules that run where none were asked for by name, see
/// [`runs_by_default`].
pub fn keep_default_modules(modules: &mut Vec<String>)
    ensures
        names_of(final(modules)@) == names_of(old(modules)@).filter(
            |name: Seq<char>| runs_by_default(name),
        ),
{
    let ghost known = names_of(modules@);
    let ghost by_default = |name: Seq<char>| runs_by_default(name);
    let expensive = String::from_str("CWE78");
    let mut kept: Vec<String> = Vec::new();
    let mut index: usize = 0;
    proof {
        reveal(Seq::filter);
        assert(known.take(0).filter(by_default) =~= names_of(kept@));
    }
    while index < modules.len()
        invariant
            index <= modules.len(),
            known == names_of(modules@),
            by_default == |name: Seq<char>| runs_by_default(name),
            expensive@ == "CWE78"@,
            names_of(kept@) == known.take(index as int).filter(by_default),
        decreases modules.len() - index,
    {
        proof {
            reveal(Seq::filter);
            assert(known.take(index + 1).drop_last() =~= known.take(index as int));
            assert(known.take(index + 1).last() == modules@[index as int]@);
        }
        if modules[index] != expensive {
            kept.push(modules[index].clone());
            assert(names_of(kept@) =~= known.take(index + 1).filter(by_default));
        }
        index = index + 1;
    }
    assert(known.take(index as int) =~= known);
    *modules = kept;
}

/// Whether one of the modules works on the results of the pointer
/// inference, see [`uses_pointer_inference`].
pub fn depends_on_pointer_inference(modules: &Vec<String>) -> (needed: bool)
    ensures
        needed == exists|i: int|
            0 <= i < modules@.len() && uses_pointer_inference(#[trigger] names_of(modules@)[i]),
{
    let injection = String::from_str("CWE78");
    let null_dereference = String::from_str("CWE476");
    let memory = String::from_str("Memory");
    let mut index: usize = 0;
    while index < modules.len()
        invariant
            index <= modules.len(),
            injection@ == "CWE78"@,
            null_dereference@ == "CWE476"@,
            memory@ == "Memory"@,
            forall|i: int|
                0 <= i < index ==> !uses_pointer_inference(#[trigger] names_of(modules@)[i]),
        decreases modules.len() - index,
    {
        if modules[index] == injection || modules[index] == null_dereference || modules[index]
            == memory {
            assert(uses_pointer_inference(names_of(modules@)[index as int]));
            return true;
        }
        index = index + 1;
    }
    false
}

} // verus!
