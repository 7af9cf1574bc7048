//! The registers of an architecture and how they overlap.

use crate::bytesize::ByteSize;
use vstd::hash_map::StringHashMap;
use vstd::prelude::*;

verus! {

/// How a register lies in its base register.
///
/// A base register is a register of full width. Its base register is the
/// register itself. Every other register is a sub-register: a range of
/// `size` bytes of its base register that starts at byte `lsb`.
#[derive(Debug, PartialEq, Eq, Hash)]
pub struct RegisterProperties {
    pub register: String,
    pub base_register: String,
    pub lsb: ByteSize,
    pub size: ByteSize,
}

/// What a [`RegisterProperties`] stands for in specifications.
pub struct RegisterPropertiesView {
    pub register: Seq<char>,
    pub base_register: Seq<char>,
    pub lsb: nat,
    pub size: nat,
}

impl View for RegisterProperties {
    type V = RegisterPropertiesView;

    open spec fn view(&self) -> RegisterPropertiesView {
        RegisterPropertiesView {
            register: self.register@,
            base_register: self.base_register@,
            lsb: self.lsb@,
            size: self.size@,
        }
    }
}

impl Clone for RegisterProperties {
    fn clone(&self) -> (copy: Self)
        ensures
            copy@ == self@,
    {
        RegisterProperties {
            register: self.register.clone(),
            base_register: self.base_register.clone(),
            lsb: self.lsb,
            size: self.size,
        }
    }
}

/// What is wrong with a register of a list.
#[derive(Debug, PartialEq, Eq, Hash, Clone, Copy, Structural)]
pub enum RegisterDefect {
    /// The base register is not in the list.
    MissingBaseRegister,
    /// The base register is itself a part of another register.
    NestedBaseRegister,
    /// The register does not lie inside its base register.
    OutOfBounds,
}

/// The reason why a list of registers is not accepted: the name of a
/// register and what is wrong with it.
#[derive(Debug, PartialEq, Eq, Hash)]
pub struct CatalogError {
    pub register: String,
    pub defect: RegisterDefect,
}

/// The views of a list of registers.
pub open spec fn register_views(registers: Seq<RegisterProperties>) -> Seq<RegisterPropertiesView> {
    registers.map_values(|properties: RegisterProperties| properties@)
}

/// The mapping from names to registers that a list of registers describes.
/// Where a name occurs more than once, its last entry counts.
pub open spec fn catalog_of(registers: Seq<RegisterPropertiesView>) -> Map<
    Seq<char>,
    RegisterPropertiesView,
>
    decreases registers.len(),
{
    if registers.len() == 0 {
        Map::empty()
    } else {
        catalog_of(registers.drop_last()).insert(registers.last().register, registers.last())
    }
}

/// What is wrong with the register `name` of `catalog`, if anything.
pub open spec fn defect_of(
    catalog: Map<Seq<char>, RegisterPropertiesView>,
    name: Seq<char>,
) -> Option<RegisterDefect> {
    let base = catalog[name].base_register;
    if !catalog.contains_key(base) {
        Some(RegisterDefect::MissingBaseRegister)
    } else if catalog[base].base_register != base {
        Some(RegisterDefect::NestedBaseRegister)
    } else if catalog[name].lsb + catalog[name].size > catalog[base].size {
        Some(RegisterDefect::OutOfBounds)
    } else {
        None
    }
}

/// The first register of the list with which something is wrong in
/// `catalog`, and what is wrong with it.
pub open spec fn first_defect(
    catalog: Map<Seq<char>, RegisterPropertiesView>,
    registers: Seq<RegisterPropertiesView>,
) -> Option<(Seq<char>, RegisterDefect)>
    decreases registers.len(),
{
    if registers.len() == 0 {
        None
    } else {
        match defect_of(catalog, registers.first().register) {
            Some(defect) => Some((registers.first().register, defect)),
            None => first_defect(catalog, registers.drop_first()),
        }
    }
}

/// Whether every register of `catalog` is filed under its own name, has a
/// base register in `catalog` that is its own base register, and lies
/// inside that base register.
pub open spec fn consistent(catalog: Map<Seq<char>, RegisterPropertiesView>) -> bool {
    forall|name: Seq<char>| #[trigger]
        catalog.contains_key(name) ==> catalog[name].register == name && defect_of(catalog, name)
            is None
}

/// Whether `name` is the name of a register that is a part of another
/// register.
pub open spec fn is_sub_register(
    catalog: Map<Seq<char>, RegisterPropertiesView>,
    name: Seq<char>,
) -> bool {
    catalog.contains_key(name) && catalog[name].base_register != name
}

/// Whether the list has a register of the given name.
pub open spec fn lists(registers: Seq<RegisterPropertiesView>, name: Seq<char>) -> bool {
    exists|i: int| 0 <= i < registers.len() && #[trigger] registers[i].register == name
}

proof fn lemma_catalog_names(registers: Seq<RegisterPropertiesView>)
    ensures
        forall|name: Seq<char>|
            catalog_of(registers).contains_key(name) <==> #[trigger] lists(registers, name),
        forall|name: Seq<char>| #[trigger]
            catalog_of(registers).contains_key(name) ==> catalog_of(registers)[name].register
                == name,
    decreases registers.len(),
{
    if registers.len() > 0 {
        let front = registers.drop_last();
        let last = registers.last();
        lemma_catalog_names(front);
        assert(catalog_of(registers) == catalog_of(front).insert(last.register, last));
        assert forall|name: Seq<char>|
            catalog_of(registers).contains_key(name) <==> #[trigger] lists(registers, name) by {
            if catalog_of(registers).contains_key(name) {
                if name == last.register {
                    assert(registers[registers.len() - 1].register == name);
                } else {
                    assert(lists(front, name));
                    let i: int = choose|i: int|
                        0 <= i < front.len() && #[trigger] front[i].register == name;
                    assert(registers[i].register == name);
                }
            }
            if lists(registers, name) {
                let i: int = choose|i: int|
                    0 <= i < registers.len() && #[trigger] registers[i].register == name;
                if i < front.len() {
                    assert(front[i].register == name);
                    assert(lists(front, name));
                }
            }
        }
        assert forall|name: Seq<char>| #[trigger]
            catalog_of(registers).contains_key(name) implies catalog_of(registers)[name].register
            == name by {
            if name != last.register {
                assert(catalog_of(front).contains_key(name));
            }
        }
    } else {
        assert forall|name: Seq<char>| !#[trigger] lists(registers, name) by {}
    }
}

proof fn lemma_first_defect_none(
    catalog: Map<Seq<char>, RegisterPropertiesView>,
    registers: Seq<RegisterPropertiesView>,
)
    ensures
        first_defect(catalog, registers) is None <==> forall|i: int|
            0 <= i < registers.len() ==> defect_of(catalog, #[trigger] registers[i].register)
                is None,
    decreases registers.len(),
{
    if registers.len() > 0 {
        let rest = registers.drop_first();
        lemma_first_defect_none(catalog, rest);
        if first_defect(catalog, registers) is None {
            assert forall|i: int| 0 <= i < registers.len() implies defect_of(
                catalog,
                #[trigger] registers[i].register,
            ) is None by {
                if i > 0 {
                    assert(rest[i - 1] == registers[i]);
                }
            }
        }
        if forall|i: int|
            0 <= i < registers.len() ==> defect_of(catalog, #[trigger] registers[i].register)
                is None {
            assert(defect_of(catalog, registers[0].register) is None);
            assert forall|i: int| 0 <= i < rest.len() implies defect_of(
                catalog,
                #[trigger] rest[i].register,
            ) is None by {
                assert(rest[i] == registers[i + 1]);
            }
        }
    }
}

proof fn lemma_first_defect_at(
    catalog: Map<Seq<char>, RegisterPropertiesView>,
    registers: Seq<RegisterPropertiesView>,
    index: int,
)
    requires
        0 <= index < registers.len(),
        forall|i: int|
            0 <= i < index ==> defect_of(catalog, #[trigger] registers[i].register) is None,
        defect_of(catalog, registers[index].register) is Some,
    ensures
        first_defect(catalog, registers) == Some(
            (registers[index].register, defect_of(catalog, registers[index].register)->Some_0),
        ),
    decreases index,
{
    if index > 0 {
        let rest = registers.drop_first();
        assert(defect_of(catalog, registers[0].register) is None);
        assert forall|i: int| 0 <= i < index - 1 implies defect_of(
            catalog,
            #[trigger] rest[i].register,
        ) is None by {
            assert(rest[i] == registers[i + 1]);
        }
        assert(rest[index - 1] == registers[index]);
        lemma_first_defect_at(catalog, rest, index - 1);
    }
}

/// A list of registers is free of defects if and only if the mapping that
/// it describes is consistent.
pub proof fn lemma_defect_free_is_consistent(registers: Seq<RegisterPropertiesView>)
    ensures
        first_defect(catalog_of(registers), registers) is None <==> consistent(
            catalog_of(registers),
        ),
{
    let catalog = catalog_of(registers);
    lemma_catalog_names(registers);
    lemma_first_defect_none(catalog, registers);
    if first_defect(catalog, registers) is None {
        assert forall|name: Seq<char>| #[trigger] catalog.contains_key(name) implies catalog[name].register
            == name && defect_of(catalog, name) is None by {
            assert(lists(registers, name));
            let i: int = choose|i: int| 0 <= i < registers.len() && #[trigger] registers[i].register == name;
            assert(defect_of(catalog, registers[i].register) is None);
        }
    }
    if consistent(catalog) {
        assert forall|i: int| 0 <= i < registers.len() implies defect_of(
            catalog,
            #[trigger] registers[i].register,
        ) is None by {
            assert(lists(registers, registers[i].register));
        }
    }
}

/// The registers of an architecture, found by their names.
///
/// A catalog is consistent, see [`consistent`]: whoever holds one may rely
/// on the base register of any of its registers.
pub struct RegisterCatalog {
    registers: StringHashMap<RegisterProperties>,
}

impl View for RegisterCatalog {
    type V = Map<Seq<char>, RegisterPropertiesView>;

    closed spec fn view(&self) -> Map<Seq<char>, RegisterPropertiesView> {
        self.registers@.map_values(|properties: RegisterProperties| properties@)
    }
}

impl RegisterCatalog {
    /// Every catalog is consistent.
    #[verifier::type_invariant]
    pub open spec fn is_consistent(&self) -> bool {
        consistent(self@)
    }

    /// The catalog of the given registers. Where a name occurs more than
    /// once, its last entry counts.
    ///
    /// The list is refused if something is wrong with one of its registers.
    /// The error then names the first such register of the list.
    pub fn new(registers: Vec<RegisterProperties>) -> (result: Result<
        RegisterCatalog,
        CatalogError,
    >)
        ensures
            match result {
                Ok(catalog) => {
                    &&& catalog@ == catalog_of(register_views(registers@))
                    &&& consistent(catalog@)
                    &&& first_defect(catalog@, register_views(registers@)) is None
                },
                Err(error) => first_defect(
                    catalog_of(register_views(registers@)),
                    register_views(registers@),
                ) == Some((error.register@, error.defect)),
            },
    {
        let ghost views = register_views(registers@);
        let mut map: StringHashMap<RegisterProperties> = StringHashMap::new();
        let mut index: usize = 0;
        while index < registers.len()
            invariant
                index <= registers.len(),
                views == register_views(registers@),
                map@.map_values(|properties: RegisterProperties| properties@) == catalog_of(
                    views.take(index as int),
                ),
            decreases registers.len() - index,
        {
            let entry = registers[index].clone();
            let name = entry.register.clone();
            proof {
                assert(views.take(index + 1).drop_last() =~= views.take(index as int));
                assert(views.take(index + 1).last() == entry@);
            }
            map.insert(name, entry);
            index = index + 1;
            assert(map@.map_values(|properties: RegisterProperties| properties@) =~= catalog_of(
                views.take(index as int),
            ));
        }
        assert(views.take(index as int) =~= views);
        let ghost catalog = catalog_of(views);
        proof {
            lemma_catalog_names(views);
        }
        index = 0;
        while index < registers.len()
            invariant
                index <= registers.len(),
                views == register_views(registers@),
                catalog == catalog_of(views),
                map@.map_values(|properties: RegisterProperties| properties@) == catalog,
                forall|name: Seq<char>|
                    catalog.contains_key(name) <==> #[trigger] lists(views, name),
                forall|i: int|
                    0 <= i < index ==> defect_of(catalog, #[trigger] views[i].register) is None,
            decreases registers.len() - index,
        {
            let name = &registers[index].register;
            assert(views[index as int].register == name@);
            assert(lists(views, name@));
            let defect = Self::find_defect(&map, name.as_str());
            match defect {
                Some(defect) => {
                    proof {
                        lemma_first_defect_at(catalog, views, index as int);
                    }
                    return Err(CatalogError { register: name.clone(), defect });
                },
                None => {},
            }
            index = index + 1;
        }
        proof {
            lemma_first_defect_none(catalog, views);
            lemma_defect_free_is_consistent(views);
        }
        Ok(RegisterCatalog { registers: map })
    }

    fn find_defect(map: &StringHashMap<RegisterProperties>, name: &str) -> (defect: Option<
        RegisterDefect,
    >)
        requires
            map@.contains_key(name@),
        ensures
            defect == defect_of(
                map@.map_values(|properties: RegisterProperties| properties@),
                name@,
            ),
    {
        let entry = match map.get(name) {
            Some(entry) => entry,
            None => {
                return None;
            },
        };
        match map.get(entry.base_register.as_str()) {
            None => Some(RegisterDefect::MissingBaseRegister),
            Some(base) => {
                if base.base_register != entry.base_register {
                    Some(RegisterDefect::NestedBaseRegister)
                } else if entry.lsb.0 as u128 + entry.size.0 as u128 > base.size.0 as u128 {
                    Some(RegisterDefect::OutOfBounds)
                } else {
                    None
                }
            },
        }
    }

    /// The properties of the register `name`, if the catalog lists it.
    pub fn get(&self, name: &str) -> (properties: Option<&RegisterProperties>)
        ensures
            consistent(self@),
            match properties {
                Some(found) => self@.contains_key(name@) && found@ == self@[name@],
                None => !self@.contains_key(name@),
            },
    {
        proof {
            use_type_invariant(self);
        }
        self.registers.get(name)
    }
}

} // verus!
