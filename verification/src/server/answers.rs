//! Questions about the platform.
use super::params::{GetMemberParams, InfoParams};
use crate::platform;
use crate::platform::{find_method, find_property, Method, PlatformIndex, Property, Type};
use crate::text;
use crate::text::{ascii_lower, same_text, to_lower};
use vstd::prelude::*;

verus! {

/// Something that the platform defines.
#[derive(Debug)]
pub enum Definition<'a> {
    Type(&'a Type),
    Method(&'a Method),
    Property(&'a Property),
}

/// The value of a definition.
pub enum DefinitionView {
    Type(Type),
    Method(Method),
    Property(Property),
}

impl<'a> View for Definition<'a> {
    type V = DefinitionView;

    open spec fn view(&self) -> DefinitionView {
        match *self {
            Definition::Type(t) => DefinitionView::Type(*t),
            Definition::Method(m) => DefinitionView::Method(*m),
            Definition::Property(p) => DefinitionView::Property(*p),
        }
    }
}

pub open spec fn opt_definition(o: Option<Definition>) -> Option<DefinitionView> {
    match o {
        Some(d) => Some(d@),
        None => None,
    }
}

/// What a question may ask for.
#[derive(Debug, Clone, Copy, PartialEq, Eq, Structural)]
pub enum Wanted {
    Type,
    Method,
    Property,
    Anything,
}

/// What a question asks for; an unknown word asks for anything.
pub open spec fn wanted_of(kind: Option<Seq<char>>) -> Wanted {
    match kind {
        None => Wanted::Anything,
        Some(word) => {
            let low = text::ascii_lowercase(word);
            if low == "type"@ {
                Wanted::Type
            } else if low == "method"@ {
                Wanted::Method
            } else if low == "property"@ {
                Wanted::Property
            } else {
                Wanted::Anything
            }
        },
    }
}

fn wanted(kind: &Option<String>) -> (r: Wanted)
    ensures
        r == wanted_of(text::opt_text(*kind)),
{
    match kind {
        None => Wanted::Anything,
        Some(word) => {
            let low = ascii_lower(word.as_str());
            if same_text(low.as_str(), "type") {
                Wanted::Type
            } else if same_text(low.as_str(), "method") {
                Wanted::Method
            } else if same_text(low.as_str(), "property") {
                Wanted::Property
            } else {
                Wanted::Anything
            }
        },
    }
}

/// The type with a name, as a definition.
pub open spec fn type_definition(index: PlatformIndex, name: Seq<char>) -> Option<DefinitionView> {
    match platform::type_named(index.types@, name) {
        Some(t) => Some(DefinitionView::Type(t)),
        None => None,
    }
}

/// The global method with a name, as a definition.
pub open spec fn method_definition(index: PlatformIndex, name: Seq<char>) -> Option<DefinitionView> {
    match platform::method_named(index.global_methods@, name) {
        Some(m) => Some(DefinitionView::Method(m)),
        None => None,
    }
}

/// The global property with a name, as a definition.
pub open spec fn property_definition(index: PlatformIndex, name: Seq<char>) -> Option<
    DefinitionView,
> {
    match platform::property_named(index.global_properties@, name) {
        Some(p) => Some(DefinitionView::Property(p)),
        None => None,
    }
}

/// What a name stands for. Where anything is asked for, a type goes before a method, and a method
/// before a property.
pub open spec fn definition_of(index: PlatformIndex, name: Seq<char>, wanted: Wanted) -> Option<
    DefinitionView,
> {
    match wanted {
        Wanted::Type => type_definition(index, name),
        Wanted::Method => method_definition(index, name),
        Wanted::Property => property_definition(index, name),
        Wanted::Anything => if type_definition(index, name) is Some {
            type_definition(index, name)
        } else if method_definition(index, name) is Some {
            method_definition(index, name)
        } else {
            property_definition(index, name)
        },
    }
}

fn find_type_definition<'a>(index: &'a PlatformIndex, name: &str) -> (r: Option<Definition<'a>>)
    ensures
        opt_definition(r) == type_definition(*index, name@),
{
    match index.find_type(name) {
        Some(t) => Some(Definition::Type(t)),
        None => None,
    }
}

fn find_method_definition<'a>(index: &'a PlatformIndex, name: &str) -> (r: Option<Definition<'a>>)
    ensures
        opt_definition(r) == method_definition(*index, name@),
{
    match index.find_global_method(name) {
        Some(m) => Some(Definition::Method(m)),
        None => None,
    }
}

fn find_property_definition<'a>(index: &'a PlatformIndex, name: &str) -> (r: Option<
    Definition<'a>,
>)
    ensures
        opt_definition(r) == property_definition(*index, name@),
{
    match index.find_global_property(name) {
        Some(p) => Some(Definition::Property(p)),
        None => None,
    }
}

/// What a name stands for.
pub fn info<'a>(index: &'a PlatformIndex, p: &InfoParams) -> (r: Option<Definition<'a>>)
    ensures
        opt_definition(r) == definition_of(*index, p.name@, wanted_of(text::opt_text(p.kind))),
{
    let name = p.name.as_str();
    match wanted(&p.kind) {
        Wanted::Type => find_type_definition(index, name),
        Wanted::Method => find_method_definition(index, name),
        Wanted::Property => find_property_definition(index, name),
        Wanted::Anything => {
            if let Some(d) = find_type_definition(index, name) {
                return Some(d);
            }
            if let Some(d) = find_method_definition(index, name) {
                return Some(d);
            }
            find_property_definition(index, name)
        },
    }
}

/// The member of a type with a name: a method, or else a property.
pub open spec fn member_of(ty: Type, name: Seq<char>) -> Option<DefinitionView> {
    let key = text::lowercase(name);
    match platform::method_at(ty.methods@, key, 0) {
        Some(i) => Some(DefinitionView::Method(ty.methods@[i])),
        None => match platform::property_at(ty.properties@, key, 0) {
            Some(i) => Some(DefinitionView::Property(ty.properties@[i])),
            None => None,
        },
    }
}

/// The answer to a question about something of a type.
#[derive(Debug)]
pub enum OfType<T> {
    /// There is no such type.
    NoType,
    /// The type does not have it.
    Nothing,
    Found(T),
}

/// The member of a type.
pub fn get_member<'a>(index: &'a PlatformIndex, p: &GetMemberParams) -> (r: OfType<Definition<'a>>)
    ensures
        match platform::type_named(index.types@, p.owner@) {
            None => r is NoType,
            Some(ty) => match member_of(ty, p.member@) {
                None => r is Nothing,
                Some(d) => r matches OfType::Found(found) && found@ == d,
            },
        },
{
    match index.find_type(p.owner.as_str()) {
        None => OfType::NoType,
        Some(ty) => {
            let key = to_lower(p.member.as_str());
            if let Some(i) = find_method(&ty.methods, key.as_str()) {
                return OfType::Found(Definition::Method(&ty.methods[i]));
            }
            match find_property(&ty.properties, key.as_str()) {
                Some(i) => OfType::Found(Definition::Property(&ty.properties[i])),
                None => OfType::Nothing,
            }
        },
    }
}

/// The type that has constructors.
pub fn get_constructors<'a>(index: &'a PlatformIndex, name: &str) -> (r: OfType<&'a Type>)
    ensures
        match platform::type_named(index.types@, name@) {
            None => r is NoType,
            Some(ty) => if ty.constructors.len() == 0 {
                r is Nothing
            } else {
                r matches OfType::Found(found) && *found == ty
            },
        },
{
    match index.find_type(name) {
        None => OfType::NoType,
        Some(ty) => if ty.constructors.len() == 0 {
            OfType::Nothing
        } else {
            OfType::Found(ty)
        },
    }
}

/// The type that is a system enumeration.
pub fn get_enum_values<'a>(index: &'a PlatformIndex, name: &str) -> (r: OfType<&'a Type>)
    ensures
        match platform::type_named(index.types@, name@) {
            None => r is NoType,
            Some(ty) => if ty.enum_values.len() == 0 {
                r is Nothing
            } else {
                r matches OfType::Found(found) && *found == ty
            },
        },
{
    match index.find_type(name) {
        None => OfType::NoType,
        Some(ty) => if ty.is_enum() {
            OfType::Found(ty)
        } else {
            OfType::Nothing
        },
    }
}

/// How much is known of the platform.
#[derive(Debug, Clone, Copy, PartialEq, Eq, Structural)]
pub struct IndexStats {
    pub global_methods: usize,
    pub global_properties: usize,
    pub types: usize,
    pub enum_types: usize,
}

/// How much is known of the platform.
pub fn index_stats(index: &PlatformIndex) -> (r: IndexStats)
    ensures
        r.global_methods == index.global_methods.len(),
        r.global_properties == index.global_properties.len(),
        r.types == index.types.len(),
        r.enum_types == platform::enum_count(index.types@),
{
    IndexStats {
        global_methods: index.global_methods.len(),
        global_properties: index.global_properties.len(),
        types: index.types.len(),
        enum_types: index.enum_types_count(),
    }
}

/// A name that is found as one thing is found without a word for the kind too.
pub proof fn law_anything_finds_all(index: PlatformIndex, name: Seq<char>, wanted: Wanted)
    ensures
        definition_of(index, name, wanted) is Some ==> definition_of(
            index,
            name,
            Wanted::Anything,
        ) is Some,
{
}

/// A definition is looked for among the types first, then among the global methods, then among the
/// global properties; with a word for the kind among those only. A name that bears none of them
/// defines nothing.
pub proof fn law_types_go_before_methods_and_properties(index: PlatformIndex, name: Seq<char>)
    ensures
        platform::type_named(index.types@, name) matches Some(t) ==> definition_of(
            index,
            name,
            Wanted::Anything,
        ) == Some(DefinitionView::Type(t)) && definition_of(index, name, Wanted::Type) == Some(
            DefinitionView::Type(t),
        ),
        platform::type_named(index.types@, name) is None ==> definition_of(index, name, Wanted::Type) is None
            && (match platform::method_named(index.global_methods@, name) {
            Some(m) => definition_of(index, name, Wanted::Anything) == Some(DefinitionView::Method(m)),
            None => match platform::property_named(index.global_properties@, name) {
                Some(p) => definition_of(index, name, Wanted::Anything) == Some(DefinitionView::Property(p)),
                None => definition_of(index, name, Wanted::Anything) is None,
            },
        }),
        definition_of(index, name, Wanted::Method) matches Some(d) ==> d is Method,
        definition_of(index, name, Wanted::Property) matches Some(d) ==> d is Property,
        definition_of(index, name, Wanted::Method) is Some <==> platform::method_named(
            index.global_methods@,
            name,
        ) is Some,
        definition_of(index, name, Wanted::Property) is Some <==> platform::property_named(
            index.global_properties@,
            name,
        ) is Some,
{
}

/// The word for a kind counts in any letter case; a word that is none asks for anything.
pub proof fn law_word_for_a_kind(word: Seq<char>, other: Seq<char>)
    requires
        text::ascii_lowercase(word) == text::ascii_lowercase(other),
    ensures
        wanted_of(Some(word)) == wanted_of(Some(other)),
        wanted_of(None) == Wanted::Anything,
        wanted_of(Some(word)) == Wanted::Type <==> text::ascii_lowercase(word) == "type"@,
        wanted_of(Some(word)) == Wanted::Method <==> text::ascii_lowercase(word) == "method"@,
        wanted_of(Some(word)) == Wanted::Property <==> text::ascii_lowercase(word) == "property"@,
{
    reveal_strlit("type");
    reveal_strlit("method");
    reveal_strlit("property");
    assert("type"@.len() == 4 && "method"@.len() == 6 && "property"@.len() == 8);
}

/// A member of a type is its first method of the name in either language, or else its first
/// property of it.
pub proof fn law_member_is_a_method_before_it_is_a_property(ty: Type, name: Seq<char>, i: int)
    ensures
        0 <= i < ty.methods@.len() && (text::lowercase(ty.methods@[i].name_ru@) == text::lowercase(name)
            || text::lowercase(ty.methods@[i].name_en@) == text::lowercase(name)) && (forall|k: int|
            0 <= k < i ==> text::lowercase((#[trigger] ty.methods@[k]).name_ru@) != text::lowercase(name)
                && text::lowercase(ty.methods@[k].name_en@) != text::lowercase(name)) ==> member_of(ty, name)
            == Some(DefinitionView::Method(ty.methods@[i])),
        (forall|k: int|
            0 <= k < ty.methods@.len() ==> text::lowercase((#[trigger] ty.methods@[k]).name_ru@)
                != text::lowercase(name) && text::lowercase(ty.methods@[k].name_en@) != text::lowercase(name))
            ==> {
            &&& 0 <= i < ty.properties@.len() && (text::lowercase(ty.properties@[i].name_ru@)
                == text::lowercase(name) || text::lowercase(ty.properties@[i].name_en@) == text::lowercase(
                name,
            )) && (forall|k: int|
                0 <= k < i ==> text::lowercase((#[trigger] ty.properties@[k]).name_ru@) != text::lowercase(name)
                    && text::lowercase(ty.properties@[k].name_en@) != text::lowercase(name)) ==> member_of(
                ty,
                name,
            ) == Some(DefinitionView::Property(ty.properties@[i]))
            &&& (forall|k: int|
                0 <= k < ty.properties@.len() ==> text::lowercase((#[trigger] ty.properties@[k]).name_ru@)
                    != text::lowercase(name) && text::lowercase(ty.properties@[k].name_en@)
                    != text::lowercase(name)) ==> member_of(ty, name) is None
        },
{
    let key = text::lowercase(name);
    platform::lemma_method_at(ty.methods@, key, 0);
    platform::lemma_property_at(ty.properties@, key, 0);
    if let Some(at) = platform::method_at(ty.methods@, key, 0) {
        assert(platform::named_as(ty.methods@[at].name_ru@, ty.methods@[at].name_en@, key));
        if 0 <= i < at {
            assert(!platform::named_as(ty.methods@[i].name_ru@, ty.methods@[i].name_en@, key));
        }
    }
    if let Some(at) = platform::property_at(ty.properties@, key, 0) {
        assert(platform::named_as(ty.properties@[at].name_ru@, ty.properties@[at].name_en@, key));
        if 0 <= i < at {
            assert(!platform::named_as(ty.properties@[i].name_ru@, ty.properties@[i].name_en@, key));
        }
    }
}

} // verus!
