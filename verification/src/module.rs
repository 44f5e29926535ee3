//! Checks of a fragment and of a whole module.
use crate::config_objects;
use crate::config_objects::{check_config_objects, check_global_property_heads};
use crate::context_names;
use crate::context_names::check_shadowed_context_names;
use crate::declarations;
use crate::declarations::{check_declarations, check_module_structure};
use crate::directives;
use crate::directives::{is_extension_module, scan_directives};
use crate::expression;
use crate::expression::{check_global_calls, check_new_expressions, check_type_dot_members};
use crate::facts::ParsedModule;
use crate::findings;
use crate::findings::{Confidence, ExprError};
use crate::paths;
use crate::paths::is_form_module;
use crate::platform::PlatformIndex;
use crate::query_rules;
use crate::query_rules::check_query_rules;
use crate::scope;
use crate::scope::{extract_scope_map, extract_type_annotations, ScopeMap};
use crate::symbols;
use crate::symbols::{NoSymbols, SymbolSource};
use crate::text;
use crate::text::{ascii_lower, copy_texts, same_text, trim, Edge};
use vstd::prelude::*;

verus! {

/// Who reads the findings.
#[derive(Debug, Clone, Copy, PartialEq, Eq, Structural)]
pub enum Profile {
    /// Only reliable findings, at the first level.
    Strict,
    /// All findings, at the level that is asked for.
    Full,
}

impl Default for Profile {
    fn default() -> (r: Profile)
        ensures
            r == Profile::Full,
    {
        Profile::Full
    }
}

/// The profile that a text names: `strict`, whatever the letter case and the white space
/// around it; everything else is the full one.
pub open spec fn profile_of(s: Option<Seq<char>>) -> Profile {
    match s {
        Some(v) => if text::ascii_lowercase(text::trimmed(Edge::Space, v)) == "strict"@ {
            Profile::Strict
        } else {
            Profile::Full
        },
        None => Profile::Full,
    }
}

impl Profile {
    /// The profile that a text names; an unknown one is the full profile.
    pub fn parse_or_default(s: Option<&str>) -> (r: Profile)
        ensures
            r == profile_of(text::opt_str(s)),
    {
        match s {
            Some(v) => {
                let word = ascii_lower(trim(Edge::Space, v).as_str());
                if same_text(word.as_str(), "strict") {
                    Profile::Strict
                } else {
                    Profile::Full
                }
            },
            None => Profile::Full,
        }
    }
}

/// The findings of a text; it is valid where there are none.
#[derive(Debug, Clone)]
pub struct ExpressionValidation {
    pub valid: bool,
    pub errors: Vec<ExprError>,
}

/// The first finding stands before the second one in the text.
pub open spec fn stands_before(a: findings::FindingView, b: findings::FindingView) -> bool {
    a.line < b.line || (a.line == b.line && a.col < b.col)
}

/// A finding put into its place among ordered ones, behind those at the same position.
pub open spec fn placed(s: Seq<findings::FindingView>, f: findings::FindingView) -> Seq<
    findings::FindingView,
>
    decreases s.len(),
{
    if s.len() > 0 && stands_before(f, s.last()) {
        placed(s.drop_last(), f).push(s.last())
    } else {
        s.push(f)
    }
}

/// Findings in the order of the text; those at the same position keep their order.
pub open spec fn ordered(s: Seq<findings::FindingView>) -> Seq<findings::FindingView>
    decreases s.len(),
{
    if s.len() == 0 {
        seq![]
    } else {
        placed(ordered(s.drop_last()), s.last())
    }
}

proof fn lemma_placed(s: Seq<findings::FindingView>, f: findings::FindingView, j: int)
    requires
        0 <= j <= s.len(),
        forall|k: int| j <= k < s.len() ==> stands_before(f, #[trigger] s[k]),
        j == 0 || !stands_before(f, s[j - 1]),
    ensures
        placed(s, f) == s.insert(j, f),
    decreases s.len() - j,
{
    if j < s.len() {
        lemma_placed(s.drop_last(), f, j);
        assert(s.insert(j, f) =~= s.drop_last().insert(j, f).push(s.last()));
    } else {
        assert(s.insert(j, f) =~= s.push(f));
    }
}

fn is_before(a: &ExprError, b: &ExprError) -> (r: bool)
    ensures
        r == stands_before(a@, b@),
{
    a.line < b.line || (a.line == b.line && a.col < b.col)
}

/// Findings in the order of the text.
fn sort_findings(errors: Vec<ExprError>) -> (r: Vec<ExprError>)
    ensures
        findings::finding_views(r@) == ordered(findings::finding_views(errors@)),
{
    let ghost all = findings::finding_views(errors@);
    let mut rest = errors;
    let mut out: Vec<ExprError> = Vec::new();
    let ghost mut done: int = 0;
    assert(all.take(0) =~= Seq::<findings::FindingView>::empty());
    assert(all.subrange(0, all.len() as int) =~= all);
    while rest.len() > 0
        invariant
            0 <= done <= all.len(),
            findings::finding_views(rest@) == all.subrange(done, all.len() as int),
            findings::finding_views(out@) == ordered(all.take(done)),
        decreases rest.len(),
    {
        let ghost held = rest@;
        let ghost views = findings::finding_views(rest@);
        let e = rest.remove(0);
        proof {
            assert(views.len() == all.len() - done);
            assert(views[0] == e@);
            assert(views[0] == all[done]);
            assert forall|k: int| 0 <= k < rest.len() implies #[trigger] findings::finding_views(rest@)[k]
                == views[k + 1] by {
                assert(rest@[k] == held[k + 1]);
            }
            assert(findings::finding_views(rest@) =~= all.subrange(done + 1, all.len() as int));
        }
        let ghost sorted = findings::finding_views(out@);
        let mut j: usize = out.len();
        while j > 0 && is_before(&e, &out[j - 1])
            invariant
                sorted == findings::finding_views(out@),
                j <= out.len(),
                forall|k: int| j <= k < out.len() ==> stands_before(e@, #[trigger] sorted[k]),
            decreases j,
        {
            assert(sorted[j - 1] == out@[j - 1]@);
            j -= 1;
        }
        proof {
            if j > 0 {
                assert(sorted[j - 1] == out@[j - 1]@);
            }
            lemma_placed(sorted, e@, j as int);
        }
        let ghost before = out@;
        out.insert(j, e);
        proof {
            assert(findings::finding_views(out@) =~= sorted.insert(j as int, e@));
            assert(all.take(done + 1).drop_last() =~= all.take(done));
            assert(all.take(done + 1).last() == e@);
            done = done + 1;
        }
    }
    assert(all.take(done) =~= all);
    out
}

/// The reliable ones of a list of findings.
pub open spec fn reliable(s: Seq<findings::FindingView>) -> Seq<findings::FindingView>
    decreases s.len(),
{
    if s.len() == 0 {
        seq![]
    } else if s.last().confidence == Confidence::High {
        reliable(s.drop_last()).push(s.last())
    } else {
        reliable(s.drop_last())
    }
}

pub(crate) fn keep_reliable(errors: Vec<ExprError>) -> (r: Vec<ExprError>)
    ensures
        findings::finding_views(r@) == reliable(findings::finding_views(errors@)),
{
    let ghost all = findings::finding_views(errors@);
    let mut rest = errors;
    let mut out: Vec<ExprError> = Vec::new();
    let ghost mut done: int = 0;
    assert(all.take(0) =~= Seq::<findings::FindingView>::empty());
    assert(findings::finding_views(out@) =~= Seq::<findings::FindingView>::empty());
    assert(all.subrange(0, all.len() as int) =~= all);
    while rest.len() > 0
        invariant
            0 <= done <= all.len(),
            findings::finding_views(rest@) == all.subrange(done, all.len() as int),
            findings::finding_views(out@) == reliable(all.take(done)),
        decreases rest.len(),
    {
        let ghost held = rest@;
        let ghost views = findings::finding_views(rest@);
        let e = rest.remove(0);
        proof {
            assert(views.len() == all.len() - done);
            assert(views[0] == e@);
            assert(views[0] == all[done]);
            assert forall|k: int| 0 <= k < rest.len() implies #[trigger] findings::finding_views(rest@)[k]
                == views[k + 1] by {
                assert(rest@[k] == held[k + 1]);
            }
            assert(findings::finding_views(rest@) =~= all.subrange(done + 1, all.len() as int));
            assert(all.take(done + 1).drop_last() =~= all.take(done));
            assert(all.take(done + 1).last() == e@);
            done = done + 1;
        }
        if e.confidence == Confidence::High {
            proof {
                findings::lemma_finding_push(out@, e);
            }
            out.push(e);
        }
    }
    assert(all.take(done) =~= all);
    out
}

/// What a profile lets through.
pub open spec fn for_profile(profile: Profile, s: Seq<findings::FindingView>) -> Seq<
    findings::FindingView,
> {
    match profile {
        Profile::Strict => reliable(s),
        Profile::Full => s,
    }
}

/// The level that a profile checks at.
pub open spec fn level_for(profile: Profile, level: u8) -> u8 {
    match profile {
        Profile::Strict => 1,
        Profile::Full => level,
    }
}

/// The texts of a module are short enough to count lines, columns and bytes in 32 bits.
pub open spec fn fits(m: ParsedModule) -> bool {
    text::byte_len(m.source@) < u32::MAX && text::byte_len(m.cleaned@) < u32::MAX
}

/// The result holds just these findings.
pub open spec fn reports(r: ExpressionValidation, s: Seq<findings::FindingView>) -> bool {
    findings::finding_views(r.errors@) == s && r.valid == (s.len() == 0)
}

/// The scopes of the variables, which are looked at from the second level on.
pub open spec fn scopes_at(index: PlatformIndex, m: ParsedModule, level: u8) -> Option<
    Seq<scope::ScopeView>,
> {
    if level >= 2 {
        Some(scope::scopes_of(index, m.cleaned@, scope::annotations_of(m.source@), level))
    } else {
        None
    }
}

fn find_scopes(index: &PlatformIndex, m: &ParsedModule, level: u8) -> (r: Option<ScopeMap>)
    ensures
        match r {
            Some(map) => scopes_at(*index, *m, level) == Some(scope::scope_views(map.scopes@)),
            None => scopes_at(*index, *m, level) is None,
        },
{
    if level >= 2 {
        let annotations = extract_type_annotations(m.source.as_str());
        Some(extract_scope_map(index, m.cleaned.as_str(), &annotations, level))
    } else {
        None
    }
}

/// The findings of a fragment, before they are ordered.
pub open spec fn fragment_findings(index: PlatformIndex, m: ParsedModule, level: u8) -> Seq<
    findings::FindingView,
> {
    let src = m.source@;
    let f = m.facts;
    expression::dot_findings(index, src, f.dots@, scopes_at(index, m, level), f.dots@.len() as int)
        + expression::new_findings(index, src, f.news@, f.news@.len() as int) + expression::call_findings(
        index,
        src,
        f.calls@,
        None,
        false,
        None,
        None,
        f.calls@.len() as int,
    )
}

/// Check a fragment at the first level.
pub fn validate_expression(index: &PlatformIndex, fragment: &ParsedModule) -> (r: ExpressionValidation)
    requires
        fits(*fragment),
    ensures
        reports(r, ordered(fragment_findings(*index, *fragment, 1))),
{
    validate_expression_at_level(index, fragment, 1)
}

/// Check a fragment. From the second level on the types of variables are followed; from the
/// third on also what methods and properties give.
pub fn validate_expression_at_level(
    index: &PlatformIndex,
    fragment: &ParsedModule,
    level: u8,
) -> (r: ExpressionValidation)
    requires
        fits(*fragment),
    ensures
        reports(r, ordered(fragment_findings(*index, *fragment, level))),
{
    proof {
        text::lemma_byte_at_bound(fragment.source@, 0);
    }
    let source = fragment.source.as_str();
    let scopes = find_scopes(index, fragment, level);
    let mut errors: Vec<ExprError> = Vec::new();
    assert(findings::finding_views(errors@) =~= Seq::<findings::FindingView>::empty());
    check_type_dot_members(index, source, &fragment.facts.dots, scopes.as_ref(), &mut errors);
    check_new_expressions(index, source, &fragment.facts.news, &mut errors);
    check_global_calls(
        index,
        source,
        &fragment.facts.calls,
        None,
        false,
        None::<&NoSymbols>,
        None,
        &mut errors,
    );
    assert(findings::finding_views(errors@) =~= fragment_findings(*index, *fragment, level));
    let sorted = sort_findings(errors);
    ExpressionValidation { valid: sorted.len() == 0, errors: sorted }
}

/// Check a fragment for a profile.
pub fn validate_expression_with_profile(
    index: &PlatformIndex,
    fragment: &ParsedModule,
    level: u8,
    profile: Profile,
) -> (r: ExpressionValidation)
    requires
        fits(*fragment),
    ensures
        reports(
            r,
            for_profile(
                profile,
                ordered(fragment_findings(*index, *fragment, level_for(profile, level))),
            ),
        ),
{
    let strict = profile == Profile::Strict;
    let effective = if strict {
        1
    } else {
        level
    };
    let result = validate_expression_at_level(index, fragment, effective);
    if strict {
        let errors = keep_reliable(result.errors);
        ExpressionValidation { valid: errors.len() == 0, errors }
    } else {
        result
    }
}

/// What is known of a module beside its text.
pub struct ModuleContext {
    pub path: Option<Seq<char>>,
    /// The attributes of the form, in lower case.
    pub attributes: Option<Seq<Seq<char>>>,
    pub answers: Option<symbols::Answers>,
    /// The exported names of the module of the owner, in lower case.
    pub owner_exports: Option<Seq<Seq<char>>>,
}

impl ModuleContext {
    /// It is the module of a form.
    pub open spec fn in_form(self) -> bool {
        self.path matches Some(p) && paths::form_module(p)
    }
}

/// The findings of a whole module, before they are ordered.
pub open spec fn module_findings(index: PlatformIndex, m: ParsedModule, level: u8, c: ModuleContext) -> Seq<
    findings::FindingView,
> {
    let src = m.source@;
    let cleaned = m.cleaned@;
    let f = m.facts;
    directives::directive_findings(cleaned, 0, 0) + expression::dot_findings(
        index,
        src,
        f.dots@,
        scopes_at(index, m, level),
        f.dots@.len() as int,
    ) + expression::new_findings(index, src, f.news@, f.news@.len() as int) + expression::call_findings(
        index,
        src,
        f.calls@,
        Some(text::texts(f.declarations@) + text::texts(m.scanned_declarations@)),
        !directives::extension_module(cleaned),
        c.answers,
        c.owner_exports,
        f.calls@.len() as int,
    ) + context_names::name_findings(
        index,
        src,
        f,
        c.in_form(),
        c.attributes,
        f.assigns@.len() as int,
    ) + declarations::declaration_findings(
        src,
        declarations::decls_of(cleaned),
        declarations::decls_of(cleaned).len() as int,
    ) + declarations::structure_findings(src, declarations::structure_of(cleaned), 0, None)
        + config_objects::object_findings(
        index,
        src,
        f,
        c.path,
        c.in_form(),
        c.attributes,
        c.answers,
    ) + config_objects::head_findings(index, src, f, c.in_form(), c.attributes, c.answers)
        + query_rules::all_text_findings(src, m.queries@, c.answers, m.queries@.len() as int)
}

fn validate_module_at_level_inner<S: SymbolSource>(
    index: &PlatformIndex,
    module: &ParsedModule,
    level: u8,
    path: Option<&str>,
    form_attributes: Option<&Vec<String>>,
    symbols: Option<&S>,
    owner_exports: Option<&Vec<String>>,
) -> (r: ExpressionValidation)
    requires
        fits(*module),
    ensures
        reports(
            r,
            ordered(
                module_findings(
                    *index,
                    *module,
                    level,
                    ModuleContext {
                        path: text::opt_str(path),
                        attributes: context_names::opt_names(form_attributes),
                        answers: symbols::answers_of(symbols),
                        owner_exports: context_names::opt_names(owner_exports),
                    },
                ),
            ),
        ),
{
    proof {
        text::lemma_byte_at_bound(module.source@, 0);
    }
    let source = module.source.as_str();
    let cleaned = module.cleaned.as_str();
    let facts = &module.facts;
    let scopes = find_scopes(index, module, level);
    let mut errors: Vec<ExprError> = Vec::new();
    assert(findings::finding_views(errors@) =~= Seq::<findings::FindingView>::empty());
    let mut own = copy_texts(&facts.declarations);
    let mut scanned = copy_texts(&module.scanned_declarations);
    let ghost before = own@;
    let ghost added = scanned@;
    own.append(&mut scanned);
    assert(text::texts(own@) =~= text::texts(before) + text::texts(added));
    scan_directives(cleaned, &mut errors);
    let strict = !is_extension_module(cleaned);
    check_type_dot_members(index, source, &facts.dots, scopes.as_ref(), &mut errors);
    check_new_expressions(index, source, &facts.news, &mut errors);
    check_global_calls(
        index,
        source,
        &facts.calls,
        Some(&own),
        strict,
        symbols,
        owner_exports,
        &mut errors,
    );
    let in_form = match path {
        Some(p) => is_form_module(p),
        None => false,
    };
    check_shadowed_context_names(index, source, facts, in_form, form_attributes, &mut errors);
    check_declarations(source, cleaned, &mut errors);
    check_module_structure(source, cleaned, &mut errors);
    check_config_objects(index, source, facts, path, in_form, form_attributes, symbols, &mut errors);
    check_global_property_heads(index, source, facts, in_form, form_attributes, symbols, &mut errors);
    check_query_rules(source, &module.queries, symbols, &mut errors);
    proof {
        let c = ModuleContext {
            path: text::opt_str(path),
            attributes: context_names::opt_names(form_attributes),
            answers: symbols::answers_of(symbols),
            owner_exports: context_names::opt_names(owner_exports),
        };
        assert(findings::finding_views(errors@) =~= module_findings(*index, *module, level, c));
    }
    let sorted = sort_findings(errors);
    ExpressionValidation { valid: sorted.len() == 0, errors: sorted }
}

/// Nothing is known of the module beside its text.
pub open spec fn bare() -> ModuleContext {
    ModuleContext { path: None, attributes: None, answers: None, owner_exports: None }
}

/// Check a whole module at the first level.
pub fn validate_module(index: &PlatformIndex, module: &ParsedModule) -> (r: ExpressionValidation)
    requires
        fits(*module),
    ensures
        reports(r, ordered(module_findings(*index, *module, 1, bare()))),
{
    validate_module_at_level(index, module, 1)
}

/// Check a whole module.
pub fn validate_module_at_level(index: &PlatformIndex, module: &ParsedModule, level: u8) -> (r: ExpressionValidation)
    requires
        fits(*module),
    ensures
        reports(r, ordered(module_findings(*index, *module, level, bare()))),
{
    validate_module_at_level_inner(index, module, level, None, None, None::<&NoSymbols>, None)
}

/// Check a whole module for a profile. `path` is its path in the dump; `form_attributes` are the
/// names of the attributes of its form in lower case, where they are known.
pub fn validate_module_with_profile(
    index: &PlatformIndex,
    module: &ParsedModule,
    path: Option<&str>,
    form_attributes: Option<&Vec<String>>,
    level: u8,
    profile: Profile,
) -> (r: ExpressionValidation)
    requires
        fits(*module),
    ensures
        reports(
            r,
            for_profile(
                profile,
                ordered(
                    module_findings(
                        *index,
                        *module,
                        level_for(profile, level),
                        ModuleContext {
                            path: text::opt_str(path),
                            attributes: context_names::opt_names(form_attributes),
                            answers: None,
                            owner_exports: None,
                        },
                    ),
                ),
            ),
        ),
{
    validate_module_with_symbols(
        index,
        module,
        level,
        profile,
        path,
        form_attributes,
        None::<&NoSymbols>,
    )
}

/// The exported names of the module of the owner, where the path is known and the source knows
/// them.
pub open spec fn exports_of_owner(path: Option<Seq<char>>, answers: Option<symbols::Answers>) -> Option<
    Seq<Seq<char>>,
> {
    match (path, answers) {
        (Some(p), Some(a)) => (a.owner_exports)(p),
        _ => None,
    }
}

/// Check a whole module for a profile, with the names of a configuration.
pub fn validate_module_with_symbols<S: SymbolSource>(
    index: &PlatformIndex,
    module: &ParsedModule,
    level: u8,
    profile: Profile,
    path: Option<&str>,
    form_attributes: Option<&Vec<String>>,
    symbols: Option<&S>,
) -> (r: ExpressionValidation)
    requires
        fits(*module),
    ensures
        reports(
            r,
            for_profile(
                profile,
                ordered(
                    module_findings(
                        *index,
                        *module,
                        level_for(profile, level),
                        ModuleContext {
                            path: text::opt_str(path),
                            attributes: context_names::opt_names(form_attributes),
                            answers: symbols::answers_of(symbols),
                            owner_exports: exports_of_owner(
                                text::opt_str(path),
                                symbols::answers_of(symbols),
                            ),
                        },
                    ),
                ),
            ),
        ),
{
    let strict = profile == Profile::Strict;
    let effective = if strict {
        1
    } else {
        level
    };
    let owner = match (path, symbols) {
        (Some(p), Some(s)) => s.owner_exports(p),
        _ => None,
    };
    let result = validate_module_at_level_inner(
        index,
        module,
        effective,
        path,
        form_attributes,
        symbols,
        owner.as_ref(),
    );
    if strict {
        let errors = keep_reliable(result.errors);
        ExpressionValidation { valid: errors.len() == 0, errors }
    } else {
        result
    }
}

/// No finding of a list stands before an earlier one.
pub open spec fn in_text_order(s: Seq<findings::FindingView>) -> bool {
    forall|i: int, j: int| 0 <= i < j < s.len() ==> !stands_before(#[trigger] s[j], #[trigger] s[i])
}

proof fn lemma_placed_order(s: Seq<findings::FindingView>, f: findings::FindingView)
    requires
        in_text_order(s),
    ensures
        in_text_order(placed(s, f)),
        placed(s, f).to_multiset() == s.push(f).to_multiset(),
        forall|i: int| 0 <= i < placed(s, f).len() ==> (#[trigger] placed(s, f)[i] == f || s.contains(placed(s, f)[i])),
    decreases s.len(),
{
    broadcast use vstd::seq_lib::group_to_multiset_ensures;
    if s.len() > 0 && stands_before(f, s.last()) {
        let head = s.drop_last();
        lemma_placed_order(head, f);
        let p = placed(head, f);
        assert(placed(s, f) == p.push(s.last()));
        assert forall|i: int| 0 <= i < placed(s, f).len() implies (#[trigger] placed(s, f)[i] == f
            || s.contains(placed(s, f)[i])) by {
            if i < p.len() {
                assert(placed(s, f)[i] == p[i]);
                if p[i] != f {
                    let k = choose|k: int| 0 <= k < head.len() && head[k] == p[i];
                    assert(s[k] == p[i]);
                }
            } else {
                assert(s[s.len() - 1] == placed(s, f)[i]);
            }
        }
        assert forall|i: int, j: int| 0 <= i < j < placed(s, f).len() implies !stands_before(
            #[trigger] placed(s, f)[j],
            #[trigger] placed(s, f)[i],
        ) by {
            if j == p.len() {
                assert(placed(s, f)[i] == p[i]);
                if p[i] != f {
                    let k = choose|k: int| 0 <= k < head.len() && head[k] == p[i];
                    assert(s[k] == p[i]);
                }
            } else {
                assert(placed(s, f)[i] == p[i] && placed(s, f)[j] == p[j]);
            }
        }
        assert(s.push(f).to_multiset() =~= placed(s, f).to_multiset()) by {
            assert(s =~= head.push(s.last()));
            head.to_multiset_ensures();
            s.to_multiset_ensures();
            p.to_multiset_ensures();
        }
    } else {
        assert forall|i: int| 0 <= i < placed(s, f).len() implies (#[trigger] placed(s, f)[i] == f
            || s.contains(placed(s, f)[i])) by {
            if i < s.len() {
                assert(placed(s, f)[i] == s[i]);
            }
        }
        assert forall|i: int, j: int| 0 <= i < j < placed(s, f).len() implies !stands_before(
            #[trigger] placed(s, f)[j],
            #[trigger] placed(s, f)[i],
        ) by {
            if j == s.len() && i < s.len() - 1 {
                assert(!stands_before(s[s.len() - 1], s[i]));
            }
        }
    }
}

/// The findings come in the order of the text, and none is lost or added on the way.
pub proof fn law_findings_are_ordered(s: Seq<findings::FindingView>)
    ensures
        in_text_order(ordered(s)),
        ordered(s).to_multiset() == s.to_multiset(),
    decreases s.len(),
{
    broadcast use vstd::seq_lib::group_to_multiset_ensures;
    if s.len() > 0 {
        let head = s.drop_last();
        law_findings_are_ordered(head);
        lemma_placed_order(ordered(head), s.last());
        assert(s =~= head.push(s.last()));
        head.to_multiset_ensures();
        ordered(head).to_multiset_ensures();
    } else {
        assert(ordered(s) =~= s);
    }
}

/// The strict profile lets reliable findings through, all of them and no others, in their order.
pub proof fn law_strict_is_reliable(s: Seq<findings::FindingView>)
    ensures
        for_profile(Profile::Strict, s) == s.filter(
            |f: findings::FindingView| f.confidence == Confidence::High,
        ),
    decreases s.len(),
{
    let p = |f: findings::FindingView| f.confidence == Confidence::High;
    reveal(Seq::filter);
    if s.len() > 0 {
        law_strict_is_reliable(s.drop_last());
        assert(p(s.last()) == (s.last().confidence == Confidence::High));
    }
}

/// A call that the module itself declares is never reported.
pub proof fn law_own_procedures_are_silent(
    index: PlatformIndex,
    src: Seq<char>,
    call: crate::facts::CallFact,
    own: Seq<Seq<char>>,
    strict: bool,
    answers: Option<symbols::Answers>,
    owner_exports: Option<Seq<Seq<char>>>,
)
    requires
        own.contains(text::lowercase(call.name@)),
    ensures
        expression::call_finding(index, src, call, Some(own), strict, answers, owner_exports) is None,
{
}

/// A fragment, and a module of an extension, never show that a call is declared nowhere.
pub proof fn law_undeclared_needs_whole_module(
    index: PlatformIndex,
    src: Seq<char>,
    call: crate::facts::CallFact,
    own: Option<Seq<Seq<char>>>,
    answers: Option<symbols::Answers>,
    owner_exports: Option<Seq<Seq<char>>>,
)
    ensures
        expression::call_finding(index, src, call, own, false, answers, owner_exports) matches Some(f)
            ==> f.kind != findings::ExprErrorKind::UndeclaredMethod,
{
}

/// A finding on a member of a type.
pub open spec fn on_member(f: findings::FindingView) -> bool {
    f.kind == findings::ExprErrorKind::UnknownEnumValue || f.kind
        == findings::ExprErrorKind::UnknownTypeMember
}

/// The second list holds every finding of the first one as often as that one does, or more often
/// where it is one on a member.
pub open spec fn adds_members_only(
    first: Seq<findings::FindingView>,
    second: Seq<findings::FindingView>,
) -> bool {
    forall|f: findings::FindingView|
        #![trigger second.to_multiset().count(f)]
        {
            &&& first.to_multiset().count(f) <= second.to_multiset().count(f)
            &&& !on_member(f) ==> first.to_multiset().count(f) == second.to_multiset().count(f)
        }
}

proof fn lemma_added(
    first: Seq<findings::FindingView>,
    second: Seq<findings::FindingView>,
    more_first: Seq<findings::FindingView>,
    more_second: Seq<findings::FindingView>,
)
    requires
        adds_members_only(first, second),
        adds_members_only(more_first, more_second),
    ensures
        adds_members_only(first + more_first, second + more_second),
{
    vstd::seq_lib::lemma_multiset_commutative(first, more_first);
    vstd::seq_lib::lemma_multiset_commutative(second, more_second);
    assert forall|f: findings::FindingView|
        #![trigger (second + more_second).to_multiset().count(f)]
        {
            &&& (first + more_first).to_multiset().count(f) <= (second + more_second).to_multiset().count(
                f,
            )
            &&& !on_member(f) ==> (first + more_first).to_multiset().count(f) == (second
                + more_second).to_multiset().count(f)
        } by {
        assert(second.to_multiset().count(f) >= first.to_multiset().count(f));
        assert(more_second.to_multiset().count(f) >= more_first.to_multiset().count(f));
    }
}

proof fn lemma_one_access(
    index: PlatformIndex,
    src: Seq<char>,
    dot: crate::facts::DotFact,
    scopes: Option<Seq<scope::ScopeView>>,
)
    ensures
        adds_members_only(
            findings::some_finding(expression::dot_finding(index, src, dot, None)),
            findings::some_finding(expression::dot_finding(index, src, dot, scopes)),
        ),
{
    broadcast use vstd::seq_lib::group_to_multiset_ensures;
    let first = expression::dot_finding(index, src, dot, None);
    let second = expression::dot_finding(index, src, dot, scopes);
    assert(first is Some ==> second == first);
    let a = findings::some_finding(first);
    let b = findings::some_finding(second);
    if first is None {
        assert(a.to_multiset().len() == 0);
        assert forall|f: findings::FindingView|
            #![trigger b.to_multiset().count(f)]
            {
                &&& a.to_multiset().count(f) <= b.to_multiset().count(f)
                &&& !on_member(f) ==> a.to_multiset().count(f) == b.to_multiset().count(f)
            } by {
            assert(!a.contains(f));
            if !on_member(f) {
                assert(!b.contains(f));
            }
        }
    }
}

proof fn lemma_accesses(
    index: PlatformIndex,
    src: Seq<char>,
    dots: Seq<crate::facts::DotFact>,
    scopes: Option<Seq<scope::ScopeView>>,
    n: int,
)
    ensures
        adds_members_only(
            expression::dot_findings(index, src, dots, None, n),
            expression::dot_findings(index, src, dots, scopes, n),
        ),
    decreases n,
{
    if n > 0 {
        lemma_accesses(index, src, dots, scopes, n - 1);
        lemma_one_access(index, src, dots[n - 1], scopes);
        lemma_added(
            expression::dot_findings(index, src, dots, None, n - 1),
            expression::dot_findings(index, src, dots, scopes, n - 1),
            findings::some_finding(expression::dot_finding(index, src, dots[n - 1], None)),
            findings::some_finding(expression::dot_finding(index, src, dots[n - 1], scopes)),
        );
    }
}

/// Lists put together in a row.
spec fn in_a_row(first: Seq<findings::FindingView>, parts: Seq<Seq<findings::FindingView>>) -> Seq<
    findings::FindingView,
>
    decreases parts.len(),
{
    if parts.len() == 0 {
        first
    } else {
        in_a_row(first, parts.drop_last()) + parts.last()
    }
}

proof fn lemma_in_a_row(
    first: Seq<findings::FindingView>,
    second: Seq<findings::FindingView>,
    parts: Seq<Seq<findings::FindingView>>,
)
    requires
        adds_members_only(first, second),
    ensures
        adds_members_only(in_a_row(first, parts), in_a_row(second, parts)),
    decreases parts.len(),
{
    if parts.len() > 0 {
        lemma_in_a_row(first, second, parts.drop_last());
        lemma_added(
            in_a_row(first, parts.drop_last()),
            in_a_row(second, parts.drop_last()),
            parts.last(),
            parts.last(),
        );
    }
}

/// What stands behind the findings on members in the findings of a module.
spec fn other_findings(index: PlatformIndex, m: ParsedModule, c: ModuleContext) -> Seq<
    Seq<findings::FindingView>,
> {
    let src = m.source@;
    let cleaned = m.cleaned@;
    let f = m.facts;
    seq![
        expression::new_findings(index, src, f.news@, f.news@.len() as int),
        expression::call_findings(
            index,
            src,
            f.calls@,
            Some(text::texts(f.declarations@) + text::texts(m.scanned_declarations@)),
            !directives::extension_module(cleaned),
            c.answers,
            c.owner_exports,
            f.calls@.len() as int,
        ),
        context_names::name_findings(
            index,
            src,
            f,
            c.in_form(),
            c.attributes,
            f.assigns@.len() as int,
        ),
        declarations::declaration_findings(
            src,
            declarations::decls_of(cleaned),
            declarations::decls_of(cleaned).len() as int,
        ),
        declarations::structure_findings(src, declarations::structure_of(cleaned), 0, None),
        config_objects::object_findings(
            index,
            src,
            f,
            c.path,
            c.in_form(),
            c.attributes,
            c.answers,
        ),
        config_objects::head_findings(index, src, f, c.in_form(), c.attributes, c.answers),
        query_rules::all_text_findings(src, m.queries@, c.answers, m.queries@.len() as int),
    ]
}

proof fn lemma_eight_in_a_row(
    first: Seq<findings::FindingView>,
    p: Seq<Seq<findings::FindingView>>,
)
    requires
        p.len() == 8,
    ensures
        in_a_row(first, p) == first + p[0] + p[1] + p[2] + p[3] + p[4] + p[5] + p[6] + p[7],
{
    reveal_with_fuel(in_a_row, 9);
}

proof fn lemma_module_findings(index: PlatformIndex, m: ParsedModule, level: u8, c: ModuleContext)
    ensures
        module_findings(index, m, level, c) == in_a_row(
            directives::directive_findings(m.cleaned@, 0, 0) + expression::dot_findings(
                index,
                m.source@,
                m.facts.dots@,
                scopes_at(index, m, level),
                m.facts.dots@.len() as int,
            ),
            other_findings(index, m, c),
        ),
{
    lemma_eight_in_a_row(
        directives::directive_findings(m.cleaned@, 0, 0) + expression::dot_findings(
            index,
            m.source@,
            m.facts.dots@,
            scopes_at(index, m, level),
            m.facts.dots@.len() as int,
        ),
        other_findings(index, m, c),
    );
}

/// A higher level only adds findings on members: everything that is reported at the first level is
/// reported at every other one, and what comes to it is said of members of types.
pub proof fn law_levels_add_findings_on_members(
    index: PlatformIndex,
    m: ParsedModule,
    level: u8,
    c: ModuleContext,
)
    ensures
        adds_members_only(
            ordered(module_findings(index, m, 1, c)),
            ordered(module_findings(index, m, level, c)),
        ),
        adds_members_only(
            ordered(fragment_findings(index, m, 1)),
            ordered(fragment_findings(index, m, level)),
        ),
{
    let src = m.source@;
    let f = m.facts;
    let dots = f.dots@;
    let scopes = scopes_at(index, m, level);
    let first = expression::dot_findings(index, src, dots, None, dots.len() as int);
    let second = expression::dot_findings(index, src, dots, scopes, dots.len() as int);
    lemma_accesses(index, src, dots, scopes, dots.len() as int);
    let before = directives::directive_findings(m.cleaned@, 0, 0);
    lemma_added(before, before, first, second);
    lemma_in_a_row(before + first, before + second, other_findings(index, m, c));
    lemma_module_findings(index, m, 1, c);
    lemma_module_findings(index, m, level, c);
    law_findings_are_ordered(module_findings(index, m, 1, c));
    law_findings_are_ordered(module_findings(index, m, level, c));
    let news = expression::new_findings(index, src, f.news@, f.news@.len() as int);
    let calls = expression::call_findings(
        index,
        src,
        f.calls@,
        None,
        false,
        None,
        None,
        f.calls@.len() as int,
    );
    lemma_added(first, second, news, news);
    lemma_added(first + news, second + news, calls, calls);
    law_findings_are_ordered(fragment_findings(index, m, 1));
    law_findings_are_ordered(fragment_findings(index, m, level));
}

proof fn lemma_in_a_row_contains(
    first: Seq<findings::FindingView>,
    parts: Seq<Seq<findings::FindingView>>,
    f: findings::FindingView,
)
    ensures
        in_a_row(first, parts).contains(f) <==> first.contains(f) || exists|i: int|
            0 <= i < parts.len() && (#[trigger] parts[i]).contains(f),
    decreases parts.len(),
{
    if parts.len() > 0 {
        let front = parts.drop_last();
        lemma_in_a_row_contains(first, front, f);
        findings::lemma_either(in_a_row(first, front), parts.last(), f);
        if exists|i: int| 0 <= i < front.len() && (#[trigger] front[i]).contains(f) {
            let i = choose|i: int| 0 <= i < front.len() && (#[trigger] front[i]).contains(f);
            assert(parts[i].contains(f));
        }
        if parts.last().contains(f) {
            assert(parts[parts.len() - 1].contains(f));
        }
        if exists|i: int| 0 <= i < parts.len() && (#[trigger] parts[i]).contains(f) {
            let i = choose|i: int| 0 <= i < parts.len() && (#[trigger] parts[i]).contains(f);
            if i < front.len() {
                assert(front[i].contains(f));
            }
        }
    }
}

#[verifier::rlimit(40)]
proof fn lemma_module_lists(
    index: PlatformIndex,
    m: ParsedModule,
    level: u8,
    c: ModuleContext,
    f: findings::FindingView,
)
    ensures
        ordered(module_findings(index, m, level, c)).contains(f) <==> {
            let parts = other_findings(index, m, c);
            ||| directives::directive_findings(m.cleaned@, 0, 0).contains(f)
            ||| expression::dot_findings(
                index,
                m.source@,
                m.facts.dots@,
                scopes_at(index, m, level),
                m.facts.dots@.len() as int,
            ).contains(f)
            ||| parts[0].contains(f)
            ||| parts[1].contains(f)
            ||| parts[2].contains(f)
            ||| parts[3].contains(f)
            ||| parts[4].contains(f)
            ||| parts[5].contains(f)
            ||| parts[6].contains(f)
            ||| parts[7].contains(f)
        },
{
    let all = module_findings(index, m, level, c);
    let a = directives::directive_findings(m.cleaned@, 0, 0);
    let b = expression::dot_findings(
        index,
        m.source@,
        m.facts.dots@,
        scopes_at(index, m, level),
        m.facts.dots@.len() as int,
    );
    let parts = other_findings(index, m, c);
    lemma_module_findings(index, m, level, c);
    lemma_in_a_row_contains(a + b, parts, f);
    findings::lemma_either(a, b, f);
    law_findings_are_ordered(all);
    lemma_same_elements(ordered(all), all, f);
    lemma_one_of_eight(parts, f);
}

proof fn lemma_one_of_eight(parts: Seq<Seq<findings::FindingView>>, f: findings::FindingView)
    requires
        parts.len() == 8,
    ensures
        (exists|i: int| 0 <= i < parts.len() && (#[trigger] parts[i]).contains(f)) <==> {
            ||| parts[0].contains(f)
            ||| parts[1].contains(f)
            ||| parts[2].contains(f)
            ||| parts[3].contains(f)
            ||| parts[4].contains(f)
            ||| parts[5].contains(f)
            ||| parts[6].contains(f)
            ||| parts[7].contains(f)
        },
{
}

/// Nothing that a check finds in a module gets lost, and nothing else is told: a finding stands
/// among those of the module, in their final order, exactly where one of the checks makes it. The
/// procedures of the module are those that were parsed and those that were scanned for, and calls
/// are held to all names unless the module is one of an extension.
pub proof fn law_module_tells_what_its_checks_find(
    index: PlatformIndex,
    m: ParsedModule,
    level: u8,
    c: ModuleContext,
    f: findings::FindingView,
)
    ensures
        ordered(module_findings(index, m, level, c)).contains(f) <==> {
            ||| directives::directive_findings(m.cleaned@, 0, 0).contains(f)
            ||| expression::dot_findings(
                index,
                m.source@,
                m.facts.dots@,
                scopes_at(index, m, level),
                m.facts.dots@.len() as int,
            ).contains(f)
            ||| expression::new_findings(index, m.source@, m.facts.news@, m.facts.news@.len() as int).contains(f)
            ||| expression::call_findings(
                index,
                m.source@,
                m.facts.calls@,
                Some(text::texts(m.facts.declarations@) + text::texts(m.scanned_declarations@)),
                !directives::extension_module(m.cleaned@),
                c.answers,
                c.owner_exports,
                m.facts.calls@.len() as int,
            ).contains(f)
            ||| context_names::name_findings(
                index,
                m.source@,
                m.facts,
                c.in_form(),
                c.attributes,
                m.facts.assigns@.len() as int,
            ).contains(f)
            ||| declarations::declaration_findings(
                m.source@,
                declarations::decls_of(m.cleaned@),
                declarations::decls_of(m.cleaned@).len() as int,
            ).contains(f)
            ||| declarations::structure_findings(
                m.source@,
                declarations::structure_of(m.cleaned@),
                0,
                None,
            ).contains(f)
            ||| config_objects::object_findings(
                index,
                m.source@,
                m.facts,
                c.path,
                c.in_form(),
                c.attributes,
                c.answers,
            ).contains(f)
            ||| config_objects::head_findings(
                index,
                m.source@,
                m.facts,
                c.in_form(),
                c.attributes,
                c.answers,
            ).contains(f)
            ||| query_rules::all_text_findings(
                m.source@,
                m.queries@,
                c.answers,
                m.queries@.len() as int,
            ).contains(f)
        },
{
    lemma_module_lists(index, m, level, c, f);
}

proof fn lemma_same_elements(a: Seq<findings::FindingView>, b: Seq<findings::FindingView>, f: findings::FindingView)
    requires
        a.to_multiset() == b.to_multiset(),
    ensures
        a.contains(f) <==> b.contains(f),
{
    a.to_multiset_ensures();
    b.to_multiset_ensures();
    assert(a.contains(f) <==> a.to_multiset().count(f) > 0);
    assert(b.contains(f) <==> b.to_multiset().count(f) > 0);
}

/// A fragment is checked for its accesses, its new values and its calls, and for nothing else; it
/// has no procedures of its own, and no name is undeclared in it.
#[verifier::rlimit(40)]
pub proof fn law_fragment_tells_what_its_checks_find(
    index: PlatformIndex,
    m: ParsedModule,
    level: u8,
    f: findings::FindingView,
)
    ensures
        ordered(fragment_findings(index, m, level)).contains(f) <==> {
            ||| exists|i: int|
                0 <= i < m.facts.dots@.len() && expression::dot_finding(
                    index,
                    m.source@,
                    #[trigger] m.facts.dots@[i],
                    scopes_at(index, m, level),
                ) == Some(f)
            ||| exists|i: int|
                0 <= i < m.facts.news@.len() && expression::new_finding(
                    index,
                    m.source@,
                    #[trigger] m.facts.news@[i],
                ) == Some(f)
            ||| exists|i: int|
                0 <= i < m.facts.calls@.len() && expression::call_finding(
                    index,
                    m.source@,
                    #[trigger] m.facts.calls@[i],
                    None,
                    false,
                    None,
                    None,
                ) == Some(f)
        },
{
    let src = m.source@;
    let all = fragment_findings(index, m, level);
    let a = expression::dot_findings(
        index,
        src,
        m.facts.dots@,
        scopes_at(index, m, level),
        m.facts.dots@.len() as int,
    );
    let b = expression::new_findings(index, src, m.facts.news@, m.facts.news@.len() as int);
    let d = expression::call_findings(
        index,
        src,
        m.facts.calls@,
        None,
        false,
        None,
        None,
        m.facts.calls@.len() as int,
    );
    assert(all == a + b + d);
    findings::lemma_either(a, b, f);
    findings::lemma_either(a + b, d, f);
    law_findings_are_ordered(all);
    lemma_same_elements(ordered(all), all, f);
    expression::law_accesses_are_checked_one_by_one(
        index,
        src,
        m.facts.dots@,
        scopes_at(index, m, level),
        m.facts.dots@.len() as int,
    );
    expression::law_new_values_are_checked_one_by_one(index, src, m.facts.news@, m.facts.news@.len() as int);
    expression::law_calls_are_checked_one_by_one(
        index,
        src,
        m.facts.calls@,
        None,
        false,
        None,
        None,
        m.facts.calls@.len() as int,
    );
}

/// The types of variables are looked at from the second level on, and the first level knows none.
pub proof fn law_first_level_knows_no_variables(index: PlatformIndex, m: ParsedModule, level: u8)
    ensures
        scopes_at(index, m, level) is Some <==> level >= 2,
        level >= 2 ==> scopes_at(index, m, level) == Some(
            scope::scopes_of(index, m.cleaned@, scope::annotations_of(m.source@), level),
        ),
{
}

/// The strict profile is asked for by its word, whatever the letter case and the white space around
/// it; anything else, and nothing, asks for the full one. The strict profile looks at the first
/// level only.
pub proof fn law_profile_is_asked_for_by_its_word(a: Seq<char>, word: Seq<char>, b: Seq<char>, level: u8)
    requires
        forall|k: int| 0 <= k < a.len() ==> text::is_space(#[trigger] a[k]),
        forall|k: int| 0 <= k < b.len() ==> text::is_space(#[trigger] b[k]),
        word.len() > 0 ==> !text::is_space(word[0]) && !text::is_space(word.last()),
    ensures
        profile_of(Some(a + word + b)) == Profile::Strict <==> text::ascii_lowercase(word) == "strict"@,
        profile_of(None) == Profile::Full,
        level_for(Profile::Strict, level) == 1,
        level_for(Profile::Full, level) == level,
{
    text::law_trimming_takes_off_the_edges(Edge::Space, a, word, b);
}

/// The strict profile tells what the full one tells for sure, and nothing else; the full one tells
/// everything.
pub proof fn law_strict_tells_less(s: Seq<findings::FindingView>, f: findings::FindingView)
    ensures
        for_profile(Profile::Full, s) == s,
        for_profile(Profile::Strict, s).contains(f) <==> s.contains(f) && f.confidence == Confidence::High,
    decreases s.len(),
{
    if s.len() > 0 {
        let front = s.drop_last();
        law_strict_tells_less(front, f);
        findings::lemma_either(front, seq![s.last()], f);
        assert(front + seq![s.last()] =~= s);
        findings::lemma_either(reliable(front), seq![s.last()], f);
        assert(reliable(front) + seq![s.last()] =~= reliable(front).push(s.last()));
        assert(seq![s.last()].contains(f) <==> f == s.last()) by {
            if f == s.last() {
                assert(seq![s.last()][0] == f);
            }
        }
    }
}

} // verus!
