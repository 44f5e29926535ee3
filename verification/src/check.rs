//! Calls of platform methods, and values of system enumerations.
use crate::platform;
use crate::distance;
use crate::distance::nearest_name;
use crate::findings::SimilarValue;
use crate::platform::{find_value, names_of_values, Method, PlatformIndex, Signature};
use crate::text;
use crate::text::{decimal_of, to_lower};
use vstd::prelude::*;

verus! {

/// Whether a call of a platform method fits, and what to say where it does not.
#[derive(Debug, Clone)]
pub struct MethodCallValidation {
    pub valid: bool,
    pub message: String,
}

/// How many of the first `n` parameters have to be given.
pub open spec fn required_upto(parameters: Seq<platform::Parameter>, n: int) -> nat
    decreases n,
{
    if n <= 0 {
        0
    } else {
        required_upto(parameters, n - 1) + if parameters[n - 1].required {
            1nat
        } else {
            0nat
        }
    }
}

/// The signature takes `count` arguments: all that have to be given, and no more than it has.
pub open spec fn takes(s: Signature, count: nat) -> bool {
    required_upto(s.parameters@, s.parameters@.len() as int) <= count <= s.parameters@.len()
}

/// Some signature of the method takes `count` arguments. A method without signatures is not
/// described, and takes any number.
pub open spec fn accepts(m: Method, count: nat) -> bool {
    m.signatures@.len() == 0 || exists|i: int|
        0 <= i < m.signatures@.len() && takes(#[trigger] m.signatures@[i], count)
}

/// What is said of a call with a wrong number of arguments.
pub open spec fn wrong_count_message(name: Seq<char>, count: nat) -> Seq<char> {
    "Метод '"@ + name + "' не принимает столько аргументов: "@ + text::decimal(count) + "."@
}

/// What is said of a call of a method that does not exist.
pub open spec fn no_method_message(name: Seq<char>) -> Seq<char> {
    "Глобальный метод '"@ + name + "' не найден в платформенном контексте."@
}

fn takes_count(s: &Signature, count: usize) -> (r: bool)
    ensures
        r == takes(*s, count as nat),
{
    let mut required: usize = 0;
    let mut i: usize = 0;
    while i < s.parameters.len()
        invariant
            i <= s.parameters.len(),
            required <= i,
            required == required_upto(s.parameters@, i as int),
        decreases s.parameters.len() - i,
    {
        if s.parameters[i].required {
            required += 1;
        }
        i += 1;
    }
    required <= count && count <= s.parameters.len()
}

fn accepts_count(m: &Method, count: usize) -> (r: bool)
    ensures
        r == accepts(*m, count as nat),
{
    if m.signatures.len() == 0 {
        return true;
    }
    let mut i: usize = 0;
    while i < m.signatures.len()
        invariant
            i <= m.signatures.len(),
            forall|k: int| 0 <= k < i ==> !takes(#[trigger] m.signatures@[k], count as nat),
        decreases m.signatures.len() - i,
    {
        if takes_count(&m.signatures[i], count) {
            assert(takes(m.signatures@[i as int], count as nat));
            return true;
        }
        i += 1;
    }
    false
}

/// Check the number of arguments of a call of a global method. It is right where some
/// signature of the method takes that number, or where none is described.
pub fn validate_method_call(index: &PlatformIndex, name: &str, arg_count: usize) -> (r: MethodCallValidation)
    ensures
        match platform::method_named(index.global_methods@, name@) {
            Some(m) => r.valid == accepts(m, arg_count as nat) && r.message@ == (if r.valid {
                seq![]
            } else {
                wrong_count_message(m.name_ru@, arg_count as nat)
            }),
            None => !r.valid && r.message@ == no_method_message(name@),
        },
{
    match index.find_global_method(name) {
        Some(m) => {
            if accepts_count(m, arg_count) {
                MethodCallValidation { valid: true, message: String::new() }
            } else {
                let mut message = "Метод '".to_owned();
                message.append(m.name_ru.as_str());
                message.append("' не принимает столько аргументов: ");
                message.append(decimal_of(arg_count).as_str());
                message.append(".");
                MethodCallValidation { valid: false, message }
            }
        },
        None => {
            let mut message = "Глобальный метод '".to_owned();
            message.append(name);
            message.append("' не найден в платформенном контексте.");
            MethodCallValidation { valid: false, message }
        },
    }
}

/// Whether a system enumeration has a value, and what to say where it does not.
#[derive(Debug, Clone)]
pub struct EnumValidation {
    pub valid: bool,
    /// The names of the values that there are.
    pub all_valid_values: Vec<String>,
    /// The nearest value, where the given one does not exist.
    pub similar: Vec<SimilarValue>,
    pub message: String,
}

/// What is said of an enumeration that does not exist.
pub open spec fn no_enum_message(name: Seq<char>) -> Seq<char> {
    "Системное перечисление '"@ + name + "' не найдено в платформенном контексте."@
}

/// What is said of a value that does not exist.
pub open spec fn no_value_message(name: Seq<char>, value: Seq<char>) -> Seq<char> {
    "У перечисления '"@ + name + "' нет значения '"@ + value + "'."@
}

/// The names of similar values.
pub open spec fn similar_names(v: Seq<SimilarValue>) -> Seq<Seq<char>> {
    v.map_values(|s: SimilarValue| s.name@)
}

/// The result on a value of the enumeration with the given values.
pub open spec fn enum_result(
    r: EnumValidation,
    values: Seq<platform::EnumValue>,
    type_ru: Seq<char>,
    value: Seq<char>,
) -> bool {
    &&& r.valid == (platform::value_at(values, text::lowercase(value), 0) is Some)
    &&& text::texts(r.all_valid_values@) == platform::value_names(values)
    &&& r.valid ==> r.similar.len() == 0 && r.message@ == Seq::<char>::empty()
    &&& !r.valid ==> r.message@ == no_value_message(type_ru, value) && similar_names(r.similar@)
        == (match distance::nearest(value, platform::value_names(values)) {
        Some((name, _)) => seq![name],
        None => seq![],
    })
}

/// Check a value of a system enumeration, whatever its letter case.
pub fn validate_enum(index: &PlatformIndex, name: &str, value: &str) -> (r: EnumValidation)
    ensures
        match platform::type_named(index.types@, name@) {
            Some(ty) if ty.enum_values.len() > 0 => enum_result(
                r,
                ty.enum_values@,
                ty.name_ru@,
                value@,
            ),
            _ => !r.valid && r.all_valid_values.len() == 0 && r.similar.len() == 0 && r.message@
                == no_enum_message(name@),
        },
{
    if let Some(ty) = index.find_type(name) {
        if ty.is_enum() {
            let all_valid_values = names_of_values(&ty.enum_values);
            let mut similar: Vec<SimilarValue> = Vec::new();
            assert(similar_names(similar@) =~= seq![]);
            let key = to_lower(value);
            if find_value(&ty.enum_values, key.as_str()).is_some() {
                return EnumValidation {
                    valid: true,
                    all_valid_values,
                    similar,
                    message: String::new(),
                };
            }
            if let Some((near, _)) = nearest_name(value, &all_valid_values) {
                similar.push(SimilarValue { name: near });
                assert(similar_names(similar@) =~= seq![near@]);
            }
            let mut message = "У перечисления '".to_owned();
            message.append(ty.name_ru.as_str());
            message.append("' нет значения '");
            message.append(value);
            message.append("'.");
            return EnumValidation { valid: false, all_valid_values, similar, message };
        }
    }
    let mut message = "Системное перечисление '".to_owned();
    message.append(name);
    message.append("' не найдено в платформенном контексте.");
    EnumValidation { valid: false, all_valid_values: Vec::new(), similar: Vec::new(), message }
}

/// What a form of a method asks for is the number of its parameters that have to be given.
pub proof fn law_required_parameters_are_counted(parameters: Seq<platform::Parameter>)
    ensures
        required_upto(parameters, parameters.len() as int) == parameters.filter(
            |p: platform::Parameter| p.required,
        ).len(),
    decreases parameters.len(),
{
    reveal(Seq::filter);
    if parameters.len() > 0 {
        let front = parameters.drop_last();
        law_required_parameters_are_counted(front);
        lemma_required_front(parameters, front, front.len() as int);
    }
}

proof fn lemma_required_front(a: Seq<platform::Parameter>, b: Seq<platform::Parameter>, n: int)
    requires
        n <= a.len(),
        n <= b.len(),
        forall|k: int| 0 <= k < n ==> a[k] == b[k],
    ensures
        required_upto(a, n) == required_upto(b, n),
    decreases n,
{
    if n > 0 {
        lemma_required_front(a, b, n - 1);
        assert(a[n - 1] == b[n - 1]);
    }
}

/// A method takes as many arguments as one of its forms has parameters, and as many as one of
/// them asks for; it takes no number that is too large or too small for every form. A method
/// without a described form takes any number.
pub proof fn law_method_takes_what_a_form_takes(m: Method, count: nat)
    ensures
        m.signatures@.len() == 0 ==> accepts(m, count),
        forall|i: int|
            0 <= i < m.signatures@.len() && count == (#[trigger] m.signatures@[i]).parameters@.len()
                ==> accepts(m, count),
        forall|i: int|
            0 <= i < m.signatures@.len() && (#[trigger] m.signatures@[i]).parameters@.filter(
                |p: platform::Parameter| p.required,
            ).len() <= count && count <= m.signatures@[i].parameters@.len() ==> accepts(m, count),
        m.signatures@.len() > 0 && (forall|i: int|
            0 <= i < m.signatures@.len() ==> count > (#[trigger] m.signatures@[i]).parameters@.len()
                || count < m.signatures@[i].parameters@.filter(|p: platform::Parameter| p.required).len())
            ==> !accepts(m, count),
{
    assert forall|i: int| 0 <= i < m.signatures@.len() implies required_upto(
        (#[trigger] m.signatures@[i]).parameters@,
        m.signatures@[i].parameters@.len() as int,
    ) == m.signatures@[i].parameters@.filter(|p: platform::Parameter| p.required).len() && required_upto(
        m.signatures@[i].parameters@,
        m.signatures@[i].parameters@.len() as int,
    ) <= m.signatures@[i].parameters@.len() by {
        law_required_parameters_are_counted(m.signatures@[i].parameters@);
        lemma_required_bound(m.signatures@[i].parameters@, m.signatures@[i].parameters@.len() as int);
    }
    assert forall|i: int|
        0 <= i < m.signatures@.len() && (#[trigger] m.signatures@[i]).parameters@.filter(
            |p: platform::Parameter| p.required,
        ).len() <= count && count <= m.signatures@[i].parameters@.len() implies accepts(m, count) by {
        assert(takes(m.signatures@[i], count));
    }
    assert forall|i: int|
        0 <= i < m.signatures@.len() && count == (#[trigger] m.signatures@[i]).parameters@.len() implies accepts(
        m,
        count,
    ) by {
        assert(takes(m.signatures@[i], count));
    }
}

proof fn lemma_required_bound(parameters: Seq<platform::Parameter>, n: int)
    requires
        0 <= n <= parameters.len(),
    ensures
        required_upto(parameters, n) <= n,
    decreases n,
{
    if n > 0 {
        lemma_required_bound(parameters, n - 1);
    }
}

/// A value of an enumeration is valid exactly where one of its values bears the name in either
/// language; every value is listed, and the similar one is no farther than any other.
pub proof fn law_enumeration_has_the_values_it_lists(
    r: EnumValidation,
    values: Seq<platform::EnumValue>,
    type_ru: Seq<char>,
    value: Seq<char>,
)
    requires
        enum_result(r, values, type_ru, value),
    ensures
        r.valid <==> exists|i: int|
            0 <= i < values.len() && (text::lowercase((#[trigger] values[i]).name_ru@)
                == text::lowercase(value) || text::lowercase(values[i].name_en@) == text::lowercase(value)),
        r.all_valid_values@.len() == values.len(),
        forall|i: int| 0 <= i < values.len() ==> (#[trigger] r.all_valid_values@[i])@ == values[i].name_ru@,
        r.valid ==> r.similar@.len() == 0 && r.message@.len() == 0,
        !r.valid && values.len() > 0 ==> r.similar@.len() == 1 && forall|i: int|
            0 <= i < values.len() ==> distance::distance(
                text::lowercase(value),
                text::lowercase(r.similar@[0].name@),
            ) <= distance::distance(
                text::lowercase(value),
                text::lowercase((#[trigger] values[i]).name_ru@),
            ),
{
    platform::lemma_value_at(values, text::lowercase(value), 0);
    let names = platform::value_names(values);
    distance::law_nearest_is_nearest(value, names);
    assert(text::texts(r.all_valid_values@).len() == values.len());
    assert forall|i: int| 0 <= i < values.len() implies (#[trigger] r.all_valid_values@[i])@
        == values[i].name_ru@ by {
        assert(text::texts(r.all_valid_values@)[i] == names[i]);
    }
    if !r.valid && values.len() > 0 {
        assert(names.len() == values.len());
        assert(distance::nearest(value, names) is Some);
        assert(similar_names(r.similar@).len() == 1);
        assert(r.similar@.len() == similar_names(r.similar@).len());
        assert(similar_names(r.similar@)[0] == r.similar@[0].name@);
        assert forall|i: int| 0 <= i < values.len() implies distance::distance(
            text::lowercase(value),
            text::lowercase(r.similar@[0].name@),
        ) <= distance::distance(
            text::lowercase(value),
            text::lowercase((#[trigger] values[i]).name_ru@),
        ) by {
            assert(names[i] == values[i].name_ru@);
        }
    }
}

/// What is said of a call names the method and the number of arguments; what is said of a value names
/// it and its enumeration.
pub proof fn law_messages_name_what_they_speak_of(name: Seq<char>, value: Seq<char>, count: nat)
    ensures
        text::holds(wrong_count_message(name, count), name),
        text::holds(wrong_count_message(name, count), text::decimal(count)),
        text::holds(no_method_message(name), name),
        text::holds(no_enum_message(name), name),
        text::holds(no_value_message(name, value), name),
        text::holds(no_value_message(name, value), value),
{
    assert(wrong_count_message(name, count) =~= ("Метод '"@) + name + ("' не принимает столько аргументов: "@ + text::decimal(count) + "."@));
    text::law_beginnings_and_ends("Метод '"@, name, "' не принимает столько аргументов: "@ + text::decimal(count) + "."@);
    assert(wrong_count_message(name, count) =~= ("Метод '"@ + name + "' не принимает столько аргументов: "@) + text::decimal(count) + ("."@));
    text::law_beginnings_and_ends("Метод '"@ + name + "' не принимает столько аргументов: "@, text::decimal(count), "."@);
    assert(no_method_message(name) =~= ("Глобальный метод '"@) + name + ("' не найден в платформенном контексте."@));
    text::law_beginnings_and_ends("Глобальный метод '"@, name, "' не найден в платформенном контексте."@);
    assert(no_enum_message(name) =~= ("Системное перечисление '"@) + name + ("' не найдено в платформенном контексте."@));
    text::law_beginnings_and_ends("Системное перечисление '"@, name, "' не найдено в платформенном контексте."@);
    assert(no_value_message(name, value) =~= ("У перечисления '"@) + name + ("' нет значения '"@ + value + "'."@));
    text::law_beginnings_and_ends("У перечисления '"@, name, "' нет значения '"@ + value + "'."@);
    assert(no_value_message(name, value) =~= ("У перечисления '"@ + name + "' нет значения '"@) + value + ("'."@));
    text::law_beginnings_and_ends("У перечисления '"@ + name + "' нет значения '"@, value, "'."@);
}

} // verus!
