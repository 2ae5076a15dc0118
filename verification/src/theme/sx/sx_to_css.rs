//! The compiler from styles to CSS.

use vstd::prelude::*;
use crate::error::{Error, ErrorModel};
use crate::system_props::{shorthand_table, translate_key, CssPropertyTranslator, TranslationUnit};
use crate::theme::palette::{selector_index, ColorByModeModel};
use crate::theme::sx::sx_value::{css_text, result_of, results_model, SxValue, SxValueModel};
use crate::theme::sx::Sx;
use crate::theme::theme_mode::ThemeMode;
use crate::theme::{class_var_name, palette_index, palette_var_name, Theme};
use crate::utils::text::{from_chars, push_all, push_str, tail_from, texts, to_chars};

verus! {

/// A declaration of a rule: a property with its value, or a nested rule.
#[derive(Debug, PartialEq, Eq)]
pub enum Declaration {
    SetProperty { property: String, value: String },
    Rule(Rule),
}

/// A rule: a selector and the declarations that hold where it matches.
#[derive(Debug, PartialEq, Eq)]
pub struct Rule {
    pub query: String,
    pub block: Vec<Declaration>,
}

/// The mathematical value of a [`Declaration`]. A rule is its selector with
/// its declarations.
pub ghost enum DeclarationModel {
    SetProperty { property: Seq<char>, value: Seq<char> },
    Rule { query: Seq<char>, block: Seq<DeclarationModel> },
}

impl Declaration {
    /// The mathematical value of the declaration.
    pub open spec fn model(&self) -> DeclarationModel
        decreases self,
    {
        match self {
            Declaration::SetProperty { property, value } => DeclarationModel::SetProperty {
                property: property@,
                value: value@,
            },
            Declaration::Rule(rule) => DeclarationModel::Rule {
                query: rule.query@,
                block: Seq::new(
                    rule.block@.len(),
                    |i: int|
                        if 0 <= i < rule.block@.len() {
                            rule.block@[i].model()
                        } else {
                            DeclarationModel::SetProperty {
                                property: Seq::empty(),
                                value: Seq::empty(),
                            }
                        },
                ),
            },
        }
    }
}

impl View for Declaration {
    type V = DeclarationModel;

    open spec fn view(&self) -> DeclarationModel {
        self.model()
    }
}

/// The mathematical values of a list of declarations.
pub open spec fn block_model(block: Seq<Declaration>) -> Seq<DeclarationModel> {
    Seq::new(block.len(), |i: int| block[i]@)
}

/// What a compilation is given besides the style: the prefix, the
/// breakpoints and the palettes of the theme, and what the functions behind
/// computed values gave.
pub ghost struct Scope {
    pub prefix: Seq<char>,
    pub breakpoints: Seq<(Seq<char>, u16)>,
    pub palettes: Seq<(Seq<char>, Seq<(Seq<char>, ColorByModeModel)>)>,
    pub results: Seq<(u64, SxValueModel)>,
}

/// A selector with a fragment added to it. A fragment that begins with `,`,
/// `>`, `~` or `+` is added as it stands. A fragment that begins with `&` is
/// added without the `&`. Any other fragment is added behind a space.
pub open spec fn combined(selector: Seq<char>, fragment: Seq<char>) -> Seq<char> {
    if fragment.len() > 0 && (fragment[0] == '>' || fragment[0] == '~' || fragment[0] == '+'
        || fragment[0] == ',') {
        selector + fragment
    } else if fragment.len() > 0 && fragment[0] == '&' {
        selector + fragment.subrange(1, fragment.len() as int)
    } else {
        selector + seq![' '] + fragment
    }
}

/// The selector that the first `upto` fragments of a stack make.
pub open spec fn selector_of(stack: Seq<Seq<char>>, upto: int) -> Seq<char>
    decreases upto,
{
    if upto <= 0 || upto > stack.len() {
        Seq::empty()
    } else {
        combined(selector_of(stack, upto - 1), stack[upto - 1])
    }
}

/// The text `var(name)`.
pub open spec fn var_text(name: Seq<char>) -> Seq<char> {
    "var("@ + name + ")"@
}

/// The text `var(name, fallback)`.
pub open spec fn var_with_fallback_text(name: Seq<char>, fallback: Seq<char>) -> Seq<char> {
    "var("@ + name + ", "@ + fallback + ")"@
}

/// One declaration `property: value;` for each of `keys` from `from` on.
pub open spec fn set_properties(keys: Seq<Seq<char>>, value: Seq<char>, from: int) -> Seq<
    DeclarationModel,
>
    decreases keys.len() - from,
{
    if from < 0 || from >= keys.len() {
        Seq::empty()
    } else {
        seq![DeclarationModel::SetProperty { property: keys[from], value }] + set_properties(
            keys,
            value,
            from + 1,
        )
    }
}

/// The declarations that the entries of a style from `from` on compile to
/// under the selector that `stack` makes.
///
/// `budget` says how many computed values may still be replaced by what
/// their functions gave on the way from the root of the style to a value.
/// A compilation starts with as many as there are results: a way that needs
/// more meets the same computed value twice, and so would never end.
pub open spec fn declarations_from(
    sx: Seq<(Seq<char>, SxValueModel)>,
    scope: Scope,
    stack: Seq<Seq<char>>,
    budget: nat,
    from: int,
) -> Result<Seq<DeclarationModel>, ErrorModel>
    decreases budget, sx, sx.len() - from,
{
    if from < 0 || from >= sx.len() {
        Ok(Seq::empty())
    } else {
        let keys = translate_key(shorthand_table(), scope.breakpoints, sx[from].0);
        match value_declarations(keys, sx[from].1, scope, stack, budget) {
            Err(e) => Err(e),
            Ok(first) => match declarations_from(sx, scope, stack, budget, from + 1) {
                Err(e) => Err(e),
                Ok(rest) => Ok(first + rest),
            },
        }
    }
}

/// The declarations that a value compiles to under each of the names `keys`.
///
/// A computed value is replaced by what its function gave, and a reference
/// to the theme by the CSS variable that it refers to, until a value is left
/// that is neither. A nested rule then becomes one rule for each name; any
/// other value becomes one declaration for each name.
pub open spec fn value_declarations(
    keys: Seq<Seq<char>>,
    value: SxValueModel,
    scope: Scope,
    stack: Seq<Seq<char>>,
    budget: nat,
) -> Result<Seq<DeclarationModel>, ErrorModel>
    decreases budget, value, 0nat,
{
    match value {
        SxValueModel::Callback(id) => match result_of(scope.results, id, 0) {
            None => Err(ErrorModel::UnresolvedCallback(id)),
            Some(given) => if budget == 0 {
                Err(ErrorModel::CallbackCycle)
            } else {
                value_declarations(keys, given, scope, stack, (budget - 1) as nat)
            },
        },
        SxValueModel::ThemeToken { palette, selector } => match palette_index(
            scope.palettes,
            palette,
            0,
        ) {
            None => Err(ErrorModel::UnknownPalette(palette)),
            Some(i) => if selector_index(scope.palettes[i].1, selector, 0) is None {
                Err(ErrorModel::UnknownSelector { palette, selector })
            } else {
                Ok(
                    set_properties(
                        keys,
                        var_text(palette_var_name(scope.prefix, palette, selector)),
                        0,
                    ),
                )
            },
        },
        SxValueModel::ClassVar { class, var, fallback } => match fallback {
            None => Ok(set_properties(keys, var_text(class_var_name(scope.prefix, class, var)), 0)),
            Some(inner) => match css_text(*inner) {
                None => Err(ErrorModel::InvalidFallback),
                Some(text) => Ok(
                    set_properties(
                        keys,
                        var_with_fallback_text(class_var_name(scope.prefix, class, var), text),
                        0,
                    ),
                ),
            },
        },
        SxValueModel::Nested(nested) => rules_from(keys, nested, scope, stack, budget, 0),
        simple => match css_text(simple) {
            Some(text) => Ok(set_properties(keys, text, 0)),
            None => Err(ErrorModel::InvalidFallback),
        },
    }
}

/// One rule for each of `keys` from `from` on: the rule of the selector
/// that `stack` makes with the name added, holding what the nested style
/// compiles to under that selector.
pub open spec fn rules_from(
    keys: Seq<Seq<char>>,
    nested: Seq<(Seq<char>, SxValueModel)>,
    scope: Scope,
    stack: Seq<Seq<char>>,
    budget: nat,
    from: int,
) -> Result<Seq<DeclarationModel>, ErrorModel>
    decreases budget, nested, nested.len() + 1 + keys.len() - from,
{
    if from < 0 || from >= keys.len() {
        Ok(Seq::empty())
    } else {
        let inner_stack = stack.push(keys[from]);
        match declarations_from(nested, scope, inner_stack, budget, 0) {
            Err(e) => Err(e),
            Ok(block) => match rules_from(keys, nested, scope, stack, budget, from + 1) {
                Err(e) => Err(e),
                Ok(rest) => Ok(
                    seq![
                        DeclarationModel::Rule {
                            query: selector_of(inner_stack, inner_stack.len() as int),
                            block,
                        },
                    ] + rest,
                ),
            },
        }
    }
}

/// The text of a declaration. A property with its value is
/// `property: value;`. A rule is the text of the rule.
pub open spec fn declaration_text(d: DeclarationModel) -> Seq<char>
    decreases d, 0nat,
{
    match d {
        DeclarationModel::SetProperty { property, value } => property + ": "@ + value + ";"@,
        DeclarationModel::Rule { query, block } => rule_text(query, block),
    }
}

/// The text of a rule: first its own properties in a block behind its
/// selector, then its nested rules. A rule without properties of its own has
/// no block of its own: only its nested rules are written.
pub open spec fn rule_text(query: Seq<char>, block: Seq<DeclarationModel>) -> Seq<char>
    decreases block, block.len() + 1,
{
    if has_properties(block, 0) {
        query + " {"@ + properties_text(block, 0) + "}"@ + rules_text(block, 0)
    } else {
        rules_text(block, 0)
    }
}

/// Whether one of the declarations from `from` on is a property.
pub open spec fn has_properties(block: Seq<DeclarationModel>, from: int) -> bool
    decreases block.len() - from,
{
    if from < 0 || from >= block.len() {
        false
    } else if block[from] is SetProperty {
        true
    } else {
        has_properties(block, from + 1)
    }
}

/// The text of the properties among the declarations from `from` on.
pub open spec fn properties_text(block: Seq<DeclarationModel>, from: int) -> Seq<char>
    decreases block.len() - from,
{
    if from < 0 || from >= block.len() {
        Seq::empty()
    } else {
        match block[from] {
            DeclarationModel::SetProperty { property, value } => property + ": "@ + value + ";"@
                + properties_text(block, from + 1),
            _ => properties_text(block, from + 1),
        }
    }
}

/// The text of the rules among the declarations from `from` on.
pub open spec fn rules_text(block: Seq<DeclarationModel>, from: int) -> Seq<char>
    decreases block, block.len() - from,
{
    if from < 0 || from >= block.len() {
        Seq::empty()
    } else {
        match block[from] {
            DeclarationModel::Rule { query, block: inner } => rule_text(query, inner) + rules_text(
                block,
                from + 1,
            ),
            _ => rules_text(block, from + 1),
        }
    }
}

/// The text of the declarations from `from` on, each in its place.
pub open spec fn sheet_text(block: Seq<DeclarationModel>, from: int) -> Seq<char>
    decreases block.len() - from,
{
    if from < 0 || from >= block.len() {
        Seq::empty()
    } else {
        declaration_text(block[from]) + sheet_text(block, from + 1)
    }
}

/// The CSS that a style compiles to: the text of its declarations, gathered
/// into a rule under the base selector if there is one.
pub open spec fn compiled(
    sx: Seq<(Seq<char>, SxValueModel)>,
    scope: Scope,
    base: Option<Seq<char>>,
) -> Result<Seq<char>, ErrorModel> {
    let stack = match base {
        Some(b) => seq![b],
        None => Seq::empty(),
    };
    match declarations_from(sx, scope, stack, scope.results.len(), 0) {
        Err(e) => Err(e),
        Ok(block) => match base {
            Some(b) => Ok(rule_text(b, block)),
            None => Ok(sheet_text(block, 0)),
        },
    }
}

/// What a compilation is given by a theme and by the results of computed
/// values.
pub open spec fn scope_of(theme: &Theme, results: Seq<(u64, SxValue)>) -> Scope {
    Scope {
        prefix: theme.prefix_spec(),
        breakpoints: theme.breakpoints_spec(),
        palettes: theme.palettes_spec(),
        results: results_model(results),
    }
}

/// Appends the text of one property.
fn write_property(out: &mut Vec<char>, property: &str, value: &str)
    ensures
        final(out)@ == old(out)@ + (property@ + ": "@ + value@ + ";"@),
{
    push_str(out, property);
    push_str(out, ": ");
    push_str(out, value);
    push_str(out, ";");
    assert(out@ =~= old(out)@ + (property@ + ": "@ + value@ + ";"@));
}

/// Whether one of the declarations is a property.
fn any_property(block: &Vec<Declaration>) -> (r: bool)
    ensures
        r == has_properties(block_model(block@), 0),
{
    let ghost m = block_model(block@);
    let mut i: usize = 0;
    while i < block.len()
        invariant
            i <= block.len(),
            m == block_model(block@),
            has_properties(m, 0) == has_properties(m, i as int),
        decreases block.len() - i,
    {
        assert(m[i as int] == block@[i as int]@);
        match &block[i] {
            Declaration::SetProperty { .. } => {
                return true;
            },
            _ => {},
        }
        i += 1;
    }
    false
}

/// Appends the text of the properties among the declarations.
fn write_properties(out: &mut Vec<char>, block: &Vec<Declaration>)
    ensures
        final(out)@ == old(out)@ + properties_text(block_model(block@), 0),
{
    let ghost m = block_model(block@);
    let mut i: usize = 0;
    while i < block.len()
        invariant
            i <= block.len(),
            m == block_model(block@),
            out@ + properties_text(m, i as int) == old(out)@ + properties_text(m, 0),
        decreases block.len() - i,
    {
        assert(m[i as int] == block@[i as int]@);
        let ghost before = out@;
        match &block[i] {
            Declaration::SetProperty { property, value } => {
                write_property(out, property.as_str(), value.as_str());
                assert(out@ + properties_text(m, i + 1) =~= before + properties_text(m, i as int));
            },
            _ => {},
        }
        i += 1;
    }
    assert(out@ + properties_text(m, block.len() as int) =~= out@);
}

/// Appends the text of the rules among the declarations.
fn write_rules(out: &mut Vec<char>, block: &Vec<Declaration>)
    ensures
        final(out)@ == old(out)@ + rules_text(block_model(block@), 0),
    decreases block, 0nat,
{
    let ghost m = block_model(block@);
    let mut i: usize = 0;
    while i < block.len()
        invariant
            i <= block.len(),
            m == block_model(block@),
            out@ + rules_text(m, i as int) == old(out)@ + rules_text(m, 0),
        decreases block.len() - i,
    {
        assert(m[i as int] == block@[i as int]@);
        let ghost before = out@;
        match &block[i] {
            Declaration::Rule(rule) => {
                assert(block_model(rule.block@) =~= m[i as int]->block);
                write_rule(out, rule.query.as_str(), &rule.block);
                assert(out@ + rules_text(m, i + 1) =~= before + rules_text(m, i as int));
            },
            _ => {},
        }
        i += 1;
    }
    assert(out@ + rules_text(m, block.len() as int) =~= out@);
}

/// Appends the text of a rule.
fn write_rule(out: &mut Vec<char>, query: &str, block: &Vec<Declaration>)
    ensures
        final(out)@ == old(out)@ + rule_text(query@, block_model(block@)),
    decreases block, 1nat,
{
    if any_property(block) {
        push_str(out, query);
        push_str(out, " {");
        write_properties(out, block);
        push_str(out, "}");
        write_rules(out, block);
        assert(out@ =~= old(out)@ + (query@ + " {"@ + properties_text(block_model(block@), 0)
            + "}"@ + rules_text(block_model(block@), 0)));
    } else {
        write_rules(out, block);
    }
}

/// Appends the text of the declarations, each in its place.
fn write_sheet(out: &mut Vec<char>, block: &Vec<Declaration>)
    ensures
        final(out)@ == old(out)@ + sheet_text(block_model(block@), 0),
{
    let ghost m = block_model(block@);
    let mut i: usize = 0;
    while i < block.len()
        invariant
            i <= block.len(),
            m == block_model(block@),
            out@ + sheet_text(m, i as int) == old(out)@ + sheet_text(m, 0),
        decreases block.len() - i,
    {
        assert(m[i as int] == block@[i as int]@);
        let ghost before = out@;
        match &block[i] {
            Declaration::SetProperty { property, value } => {
                write_property(out, property.as_str(), value.as_str());
            },
            Declaration::Rule(rule) => {
                assert(block_model(rule.block@) =~= m[i as int]->block);
                write_rule(out, rule.query.as_str(), &rule.block);
            },
        }
        assert(out@ + sheet_text(m, i + 1) =~= before + sheet_text(m, i as int));
        i += 1;
    }
    assert(out@ + sheet_text(m, block.len() as int) =~= out@);
}

impl Rule {
    /// The text of the rule.
    pub fn to_string(&self) -> (r: String)
        ensures
            r@ == rule_text(self.query@, block_model(self.block@)),
    {
        let mut out: Vec<char> = Vec::new();
        write_rule(&mut out, self.query.as_str(), &self.block);
        assert(out@ =~= rule_text(self.query@, block_model(self.block@)));
        from_chars(&out)
    }
}

impl Declaration {
    /// The text of the declaration.
    pub fn to_string(&self) -> (r: String)
        ensures
            r@ == declaration_text(self@),
    {
        let mut out: Vec<char> = Vec::new();
        match self {
            Declaration::SetProperty { property, value } => {
                write_property(&mut out, property.as_str(), value.as_str());
            },
            Declaration::Rule(rule) => {
                assert(block_model(rule.block@) =~= self@->block);
                write_rule(&mut out, rule.query.as_str(), &rule.block);
            },
        }
        assert(out@ =~= declaration_text(self@));
        from_chars(&out)
    }
}

/// The selector that a stack of fragments makes.
fn selector_text(stack: &Vec<String>) -> (r: String)
    ensures
        r@ == selector_of(texts(stack@), stack@.len() as int),
{
    let ghost m = texts(stack@);
    let mut out: Vec<char> = Vec::new();
    let mut i: usize = 0;
    while i < stack.len()
        invariant
            i <= stack.len(),
            m == texts(stack@),
            out@ == selector_of(m, i as int),
        decreases stack.len() - i,
    {
        assert(m[i as int] == stack@[i as int]@);
        let fragment = to_chars(stack[i].as_str());
        let ghost before = out@;
        if fragment.len() > 0 && (fragment[0] == '>' || fragment[0] == '~' || fragment[0] == '+'
            || fragment[0] == ',') {
            push_all(&mut out, &fragment);
        } else if fragment.len() > 0 && fragment[0] == '&' {
            let rest = tail_from(&fragment, 1);
            push_all(&mut out, &rest);
        } else {
            out.push(' ');
            push_all(&mut out, &fragment);
            assert(out@ =~= before + seq![' '] + fragment@);
        }
        i += 1;
    }
    from_chars(&out)
}

/// One declaration `property: value;` for each of `keys`.
fn set_each(keys: &Vec<String>, value: &str) -> (r: Vec<Declaration>)
    ensures
        block_model(r@) == set_properties(texts(keys@), value@, 0),
{
    let ghost m = texts(keys@);
    let mut r: Vec<Declaration> = Vec::new();
    let mut i: usize = keys.len();
    assert(block_model(r@) =~= set_properties(m, value@, i as int));
    while i > 0
        invariant
            i <= keys.len(),
            m == texts(keys@),
            block_model(r@) == set_properties(m, value@, i as int),
        decreases i,
    {
        i -= 1;
        assert(m[i as int] == keys@[i as int]@);
        let ghost before = block_model(r@);
        r.insert(0, Declaration::SetProperty { property: keys[i].clone(), value: value.to_owned() });
        assert(block_model(r@) =~= seq![
            DeclarationModel::SetProperty { property: m[i as int], value: value@ },
        ] + before);
    }
    r
}

/// The text `var(name)`.
fn var_reference(name: &str) -> (r: String)
    ensures
        r@ == var_text(name@),
{
    let mut out: Vec<char> = Vec::new();
    push_str(&mut out, "var(");
    push_str(&mut out, name);
    push_str(&mut out, ")");
    assert(out@ =~= var_text(name@));
    from_chars(&out)
}

/// The text `var(name, fallback)`.
fn var_reference_with_fallback(name: &str, fallback: &str) -> (r: String)
    ensures
        r@ == var_with_fallback_text(name@, fallback@),
{
    let mut out: Vec<char> = Vec::new();
    push_str(&mut out, "var(");
    push_str(&mut out, name);
    push_str(&mut out, ", ");
    push_str(&mut out, fallback);
    push_str(&mut out, ")");
    assert(out@ =~= var_with_fallback_text(name@, fallback@));
    from_chars(&out)
}

/// Compiles the entries of a style under the selector that `stack` makes.
fn sx_to_declarations(
    sx: &Sx,
    theme: &Theme,
    unit: &TranslationUnit,
    results: &Vec<(u64, SxValue)>,
    stack: &mut Vec<String>,
    budget: usize,
) -> (r: Result<Vec<Declaration>, Error>)
    requires
        unit.table() == shorthand_table(),
        unit.breakpoints() == theme.breakpoints_spec(),
    ensures
        texts(final(stack)@) == texts(old(stack)@),
        match declarations_from(
            sx@,
            scope_of(theme, results@),
            texts(old(stack)@),
            budget as nat,
            0,
        ) {
            Ok(block) => r matches Ok(found) && block_model(found@) == block,
            Err(e) => r matches Err(x) && x@ == e,
        },
    decreases budget, sx@, sx@.len() + 1,
{
    let ghost scope = scope_of(theme, results@);
    let ghost frames = texts(stack@);
    let entries = sx.entries();
    let n = entries.len();
    let mut out: Vec<Declaration> = Vec::new();
    let mut i: usize = 0;
    assert(block_model(out@) =~= Seq::<DeclarationModel>::empty());
    proof {
        lemma_after_empty(declarations_from(sx@, scope, frames, budget as nat, 0));
    }
    while i < n
        invariant
            i <= n,
            n == entries@.len(),
            n == sx@.len(),
            forall|j: int|
                0 <= j < n ==> (#[trigger] entries@[j]).0@ == sx@[j].0 && entries@[j].1@
                    == sx@[j].1,
            unit.table() == shorthand_table(),
            unit.breakpoints() == theme.breakpoints_spec(),
            scope == scope_of(theme, results@),
            frames == texts(stack@),
            frames == texts(old(stack)@),
            declarations_from(sx@, scope, frames, budget as nat, 0) == after(
                block_model(out@),
                declarations_from(sx@, scope, frames, budget as nat, i as int),
            ),
        decreases n - i,
    {
        let keys = unit.translate(entries[i].0.as_str());
        let first = property_to_declaration(&keys, &entries[i].1, theme, unit, results, stack, budget);
        match first {
            Err(e) => {
                return Err(e);
            },
            Ok(mut decls) => {
                let ghost head = block_model(out@);
                let ghost more = block_model(decls@);
                out.append(&mut decls);
                assert(block_model(out@) =~= head + more);
                proof {
                    lemma_after_step(
                        head,
                        more,
                        declarations_from(sx@, scope, frames, budget as nat, i + 1),
                    );
                }
            },
        }
        i += 1;
    }
    proof {
        assert(block_model(out@) + Seq::<DeclarationModel>::empty() =~= block_model(out@));
    }
    Ok(out)
}

/// The declarations `done` followed by the declarations `rest`, if there
/// are any; else the error in their place.
pub open spec fn after(done: Seq<DeclarationModel>, rest: Result<Seq<DeclarationModel>, ErrorModel>) -> Result<
    Seq<DeclarationModel>,
    ErrorModel,
> {
    match rest {
        Ok(more) => Ok(done + more),
        Err(e) => Err(e),
    }
}

/// Nothing followed by some declarations is those declarations.
pub proof fn lemma_after_empty(rest: Result<Seq<DeclarationModel>, ErrorModel>)
    ensures
        after(Seq::empty(), rest) == rest,
{
    match rest {
        Ok(more) => {
            assert(Seq::<DeclarationModel>::empty() + more =~= more);
        },
        Err(_) => {},
    }
}

/// Declarations may be gathered piece by piece.
pub proof fn lemma_after_step(
    done: Seq<DeclarationModel>,
    first: Seq<DeclarationModel>,
    rest: Result<Seq<DeclarationModel>, ErrorModel>,
)
    ensures
        after(done, after(first, rest)) == after(done + first, rest),
{
    match rest {
        Ok(more) => {
            assert(done + (first + more) =~= (done + first) + more);
        },
        Err(_) => {},
    }
}

/// Compiles one value under each of the names `keys`.
fn property_to_declaration(
    keys: &Vec<String>,
    value: &SxValue,
    theme: &Theme,
    unit: &TranslationUnit,
    results: &Vec<(u64, SxValue)>,
    stack: &mut Vec<String>,
    budget: usize,
) -> (r: Result<Vec<Declaration>, Error>)
    requires
        unit.table() == shorthand_table(),
        unit.breakpoints() == theme.breakpoints_spec(),
    ensures
        texts(final(stack)@) == texts(old(stack)@),
        match value_declarations(
            texts(keys@),
            value@,
            scope_of(theme, results@),
            texts(old(stack)@),
            budget as nat,
        ) {
            Ok(block) => r matches Ok(found) && block_model(found@) == block,
            Err(e) => r matches Err(x) && x@ == e,
        },
    decreases budget, value@, 0nat,
{
    match value {
        SxValue::Callback(f) => {
            match f.apply(results) {
                None => Err(Error::UnresolvedCallback(f.id())),
                Some(given) => {
                    if budget == 0 {
                        return Err(Error::CallbackCycle);
                    }
                    property_to_declaration(keys, &given, theme, unit, results, stack, budget - 1)
                },
            }
        },
        SxValue::ThemeToken { palette, selector } => {
            match theme.get_palette(palette.as_str()) {
                None => Err(Error::UnknownPalette(palette.clone())),
                Some(found) => {
                    if !found.contains(selector.as_str()) {
                        Err(
                            Error::UnknownSelector {
                                palette: palette.clone(),
                                selector: selector.clone(),
                            },
                        )
                    } else {
                        let name = theme.palette_var(palette.as_str(), selector.as_str());
                        let text = var_reference(name.as_str());
                        Ok(set_each(keys, text.as_str()))
                    }
                },
            }
        },
        SxValue::ClassVar { class, var, fallback } => {
            let name = theme.class_var(class.as_str(), var.as_str());
            match fallback {
                None => {
                    let text = var_reference(name.as_str());
                    Ok(set_each(keys, text.as_str()))
                },
                Some(inner) => match (**inner).to_css() {
                    None => Err(Error::InvalidFallback),
                    Some(fallback_text) => {
                        let text = var_reference_with_fallback(
                            name.as_str(),
                            fallback_text.as_str(),
                        );
                        Ok(set_each(keys, text.as_str()))
                    },
                },
            }
        },
        SxValue::Nested(nested) => rules_for(keys, nested, theme, unit, results, stack, budget),
        simple => match simple.to_css() {
            Some(text) => Ok(set_each(keys, text.as_str())),
            None => Err(Error::InvalidFallback),
        },
    }
}

/// Compiles a nested style into one rule for each of the names `keys`.
fn rules_for(
    keys: &Vec<String>,
    nested: &Sx,
    theme: &Theme,
    unit: &TranslationUnit,
    results: &Vec<(u64, SxValue)>,
    stack: &mut Vec<String>,
    budget: usize,
) -> (r: Result<Vec<Declaration>, Error>)
    requires
        unit.table() == shorthand_table(),
        unit.breakpoints() == theme.breakpoints_spec(),
    ensures
        texts(final(stack)@) == texts(old(stack)@),
        match rules_from(
            texts(keys@),
            nested@,
            scope_of(theme, results@),
            texts(old(stack)@),
            budget as nat,
            0,
        ) {
            Ok(block) => r matches Ok(found) && block_model(found@) == block,
            Err(e) => r matches Err(x) && x@ == e,
        },
    decreases budget, nested@, nested@.len() + 2,
{
    let ghost scope = scope_of(theme, results@);
    let ghost frames = texts(stack@);
    let ghost names = texts(keys@);
    let mut out: Vec<Declaration> = Vec::new();
    let mut k: usize = 0;
    assert(block_model(out@) =~= Seq::<DeclarationModel>::empty());
    proof {
        lemma_after_empty(rules_from(names, nested@, scope, frames, budget as nat, 0));
    }
    while k < keys.len()
        invariant
            k <= keys.len(),
            names == texts(keys@),
            unit.table() == shorthand_table(),
            unit.breakpoints() == theme.breakpoints_spec(),
            scope == scope_of(theme, results@),
            frames == texts(stack@),
            frames == texts(old(stack)@),
            rules_from(names, nested@, scope, frames, budget as nat, 0) == after(
                block_model(out@),
                rules_from(names, nested@, scope, frames, budget as nat, k as int),
            ),
        decreases keys.len() - k,
    {
        assert(names[k as int] == keys@[k as int]@);
        stack.push(keys[k].clone());
        assert(texts(stack@) =~= frames.push(names[k as int]));
        let query = selector_text(stack);
        let inner = sx_to_declarations(nested, theme, unit, results, stack, budget);
        let ghost pushed = stack@;
        assert(texts(pushed).len() == frames.len() + 1);
        stack.pop();
        assert(texts(stack@) =~= frames) by {
            assert forall|j: int| 0 <= j < frames.len() implies texts(stack@)[j] == frames[j] by {
                assert(texts(pushed)[j] == frames.push(names[k as int])[j]);
            }
        }
        match inner {
            Err(e) => {
                return Err(e);
            },
            Ok(block) => {
                let ghost head = block_model(out@);
                let ghost b = block_model(block@);
                let rule = Declaration::Rule(Rule { query, block });
                assert(rule@ == DeclarationModel::Rule {
                    query: selector_of(frames.push(names[k as int]), (frames.len() + 1) as int),
                    block: b,
                }) by {
                    assert(rule@->block =~= b);
                }
                out.push(rule);
                assert(block_model(out@) =~= head + seq![rule@]);
                proof {
                    lemma_after_step(
                        head,
                        seq![rule@],
                        rules_from(names, nested@, scope, frames, budget as nat, k + 1),
                    );
                }
            },
        }
        k += 1;
    }
    proof {
        assert(block_model(out@) + Seq::<DeclarationModel>::empty() =~= block_model(out@));
    }
    Ok(out)
}

/// Compiles a style to CSS.
///
/// `base_query` is the selector under which the properties of the style
/// itself are gathered, if there is one. `results` lists what the functions
/// behind computed values gave for this theme, by identity. The mode takes
/// no part: a style refers to colours by the names of their variables.
#[allow(unused_variables)]
pub fn sx_to_css(
    sx: &Sx,
    mode: &ThemeMode,
    theme: &Theme,
    base_query: Option<&str>,
    results: &Vec<(u64, SxValue)>,
) -> (r: Result<String, Error>)
    ensures
        match compiled(
            sx@,
            scope_of(theme, results@),
            match base_query {
                Some(b) => Some(b@),
                None => None,
            },
        ) {
            Ok(text) => r matches Ok(found) && found@ == text,
            Err(e) => r matches Err(x) && x@ == e,
        },
{
    let unit = TranslationUnit::new(theme.breakpoints());
    let mut stack: Vec<String> = Vec::new();
    match base_query {
        Some(b) => {
            stack.push(b.to_owned());
            assert(texts(stack@) =~= seq![b@]);
        },
        None => {
            assert(texts(stack@) =~= Seq::<Seq<char>>::empty());
        },
    }
    assert(results_model(results@).len() == results@.len());
    let block = match sx_to_declarations(sx, theme, &unit, results, &mut stack, results.len()) {
        Ok(block) => block,
        Err(e) => {
            return Err(e);
        },
    };
    let mut out: Vec<char> = Vec::new();
    match base_query {
        Some(b) => {
            write_rule(&mut out, b, &block);
            assert(out@ =~= rule_text(b@, block_model(block@)));
        },
        None => {
            write_sheet(&mut out, &block);
            assert(out@ =~= sheet_text(block_model(block@), 0));
        },
    }
    Ok(from_chars(&out))
}

impl Sx {
    /// The CSS that the style compiles to, without a base selector.
    pub fn to_css(&self, mode: &ThemeMode, theme: &Theme, results: &Vec<(u64, SxValue)>) -> (r: Result<
        String,
        Error,
    >)
        ensures
            match compiled(self@, scope_of(theme, results@), None) {
                Ok(text) => r matches Ok(found) && found@ == text,
                Err(e) => r matches Err(x) && x@ == e,
            },
    {
        sx_to_css(self, mode, theme, None, results)
    }
}

/// Whether one of the entries of a style from `from` on refers to a
/// palette that is not among `palettes`, be it in the style itself or in
/// one of its nested rules, however deep.
pub open spec fn refers_to_missing_palette(
    sx: Seq<(Seq<char>, SxValueModel)>,
    palettes: Seq<(Seq<char>, Seq<(Seq<char>, ColorByModeModel)>)>,
    from: int,
) -> bool
    decreases sx, sx.len() - from,
{
    if from < 0 || from >= sx.len() {
        false
    } else {
        let here = match sx[from].1 {
            SxValueModel::ThemeToken { palette, selector } => palette_index(palettes, palette, 0)
                is None,
            SxValueModel::Nested(nested) => refers_to_missing_palette(nested, palettes, 0),
            _ => false,
        };
        here || refers_to_missing_palette(sx, palettes, from + 1)
    }
}

/// Every name is translated into at least one name.
pub proof fn lemma_translation_is_not_empty(breakpoints: Seq<(Seq<char>, u16)>, query: Seq<char>)
    ensures
        translate_key(shorthand_table(), breakpoints, query).len() >= 1,
{
    reveal_with_fuel(crate::system_props::lookup, 12);
    let table = shorthand_table();
    assert(table.len() == 11);
    assert(table[0].1.len() == 1 && table[1].1.len() == 1 && table[2].1.len() == 1
        && table[3].1.len() == 1 && table[4].1.len() == 1 && table[5].1.len() == 2
        && table[6].1.len() == 2 && table[7].1.len() == 1 && table[8].1.len() == 1
        && table[9].1.len() == 2 && table[10].1.len() == 2);
}

/// A style that refers to a palette which the theme does not have, in
/// itself or in one of its nested rules, does not compile under any
/// selector: the reference is never passed over.
pub proof fn lemma_missing_palette_fails_from(
    sx: Seq<(Seq<char>, SxValueModel)>,
    scope: Scope,
    stack: Seq<Seq<char>>,
    budget: nat,
    from: int,
)
    requires
        refers_to_missing_palette(sx, scope.palettes, from),
    ensures
        declarations_from(sx, scope, stack, budget, from) is Err,
    decreases sx, sx.len() - from,
{
    let keys = translate_key(shorthand_table(), scope.breakpoints, sx[from].0);
    lemma_translation_is_not_empty(scope.breakpoints, sx[from].0);
    match sx[from].1 {
        SxValueModel::ThemeToken { palette, selector } => {
            if palette_index(scope.palettes, palette, 0) is None {
                assert(value_declarations(keys, sx[from].1, scope, stack, budget) is Err);
            } else {
                lemma_missing_palette_fails_from(sx, scope, stack, budget, from + 1);
            }
        },
        SxValueModel::Nested(nested) => {
            if refers_to_missing_palette(nested, scope.palettes, 0) {
                lemma_missing_palette_fails_from(nested, scope, stack.push(keys[0]), budget, 0);
                assert(rules_from(keys, nested, scope, stack, budget, 0) is Err);
                assert(value_declarations(keys, sx[from].1, scope, stack, budget) is Err);
            } else {
                lemma_missing_palette_fails_from(sx, scope, stack, budget, from + 1);
            }
        },
        _ => {
            lemma_missing_palette_fails_from(sx, scope, stack, budget, from + 1);
        },
    }
}

/// Compiling a style that refers to a palette which the theme does not
/// have is an error, with or without a base selector.
pub proof fn lemma_missing_palette_fails(
    sx: Seq<(Seq<char>, SxValueModel)>,
    scope: Scope,
    base: Option<Seq<char>>,
)
    requires
        refers_to_missing_palette(sx, scope.palettes, 0),
    ensures
        compiled(sx, scope, base) is Err,
{
    let stack = match base {
        Some(b) => seq![b],
        None => Seq::empty(),
    };
    lemma_missing_palette_fails_from(sx, scope, stack, scope.results.len(), 0);
}

/// A value that is set under several names becomes one declaration for
/// each name, in the order of the names, and each declaration has the same
/// value.
pub proof fn lemma_one_declaration_for_each_name(keys: Seq<Seq<char>>, value: Seq<char>, from: int)
    requires
        0 <= from <= keys.len(),
    ensures
        set_properties(keys, value, from).len() == keys.len() - from,
        forall|i: int|
            0 <= i < keys.len() - from ==> #[trigger] set_properties(keys, value, from)[i]
                == (DeclarationModel::SetProperty { property: keys[from + i], value }),
    decreases keys.len() - from,
{
    if from < keys.len() {
        lemma_one_declaration_for_each_name(keys, value, from + 1);
        let rest = set_properties(keys, value, from + 1);
        let all = set_properties(keys, value, from);
        assert forall|i: int| 0 <= i < keys.len() - from implies #[trigger] all[i] == (
        DeclarationModel::SetProperty { property: keys[from + i], value }) by {
            if i > 0 {
                assert(all[i] == rest[i - 1]);
            }
        }
    }
}

/// The shorthand `pX` stands for the two properties `margin-left` and
/// `margin-right`, whatever the breakpoints are.
pub proof fn lemma_horizontal_shorthand(breakpoints: Seq<(Seq<char>, u16)>)
    ensures
        translate_key(shorthand_table(), breakpoints, "pX"@) == seq![
            crate::utils::property_name("margin-left"@),
            crate::utils::property_name("margin-right"@),
        ],
{
    reveal_with_fuel(crate::system_props::lookup, 12);
    reveal_strlit("p");
    reveal_strlit("pl");
    reveal_strlit("pr");
    reveal_strlit("pt");
    reveal_strlit("pb");
    reveal_strlit("pX");
    let table = shorthand_table();
    assert(table[0].0 != "pX"@ && table[1].0 != "pX"@ && table[2].0 != "pX"@ && table[3].0
        != "pX"@ && table[4].0 != "pX"@) by {
        assert("p"@.len() == 1);
        assert("pX"@.len() == 2);
        assert("pl"@[1] == 'l' && "pr"@[1] == 'r' && "pt"@[1] == 't' && "pb"@[1] == 'b' && "pX"@[1]
            == 'X');
    }
    assert(table[5].0 == "pX"@);
    assert(crate::system_props::property_names(table[5].1) =~= seq![
        crate::utils::property_name("margin-left"@),
        crate::utils::property_name("margin-right"@),
    ]);
}

/// Whether none of the declarations from `from` on is a property.
pub open spec fn only_rules(block: Seq<DeclarationModel>, from: int) -> bool {
    forall|i: int| from <= i < block.len() ==> #[trigger] block[i] is Rule
}

/// A rule without properties of its own has no block of its own: its text
/// is the text of its nested rules and nothing else, whatever its selector
/// is.
pub proof fn lemma_no_empty_block(query: Seq<char>, block: Seq<DeclarationModel>)
    requires
        only_rules(block, 0),
    ensures
        rule_text(query, block) == rules_text(block, 0),
{
    lemma_no_properties(block, 0);
}

/// Where every declaration is a rule, none is a property.
pub proof fn lemma_no_properties(block: Seq<DeclarationModel>, from: int)
    requires
        0 <= from <= block.len(),
        only_rules(block, from),
    ensures
        !has_properties(block, from),
    decreases block.len() - from,
{
    if from < block.len() {
        assert(block[from] is Rule);
        lemma_no_properties(block, from + 1);
    }
}

/// A block as it is written: a selector, and the properties with their
/// values that stand between the braces behind it.
pub ghost struct Block {
    pub query: Seq<char>,
    pub properties: Seq<(Seq<char>, Seq<char>)>,
}

/// The properties among the declarations from `from` on, each with its
/// value, in order.
pub open spec fn own_properties(block: Seq<DeclarationModel>, from: int) -> Seq<
    (Seq<char>, Seq<char>),
>
    decreases block.len() - from,
{
    if from < 0 || from >= block.len() {
        Seq::empty()
    } else {
        match block[from] {
            DeclarationModel::SetProperty { property, value } => seq![(property, value)]
                + own_properties(block, from + 1),
            _ => own_properties(block, from + 1),
        }
    }
}

/// The text of properties with their values, one after the other.
pub open spec fn listed_text(properties: Seq<(Seq<char>, Seq<char>)>) -> Seq<char>
    decreases properties.len(),
{
    if properties.len() == 0 {
        Seq::empty()
    } else {
        properties[0].0 + ": "@ + properties[0].1 + ";"@ + listed_text(properties.drop_first())
    }
}

/// The text of a block: its selector, and its properties between braces.
pub open spec fn block_text(b: Block) -> Seq<char> {
    b.query + " {"@ + listed_text(b.properties) + "}"@
}

/// The text of blocks, one after the other.
pub open spec fn blocks_text(blocks: Seq<Block>) -> Seq<char>
    decreases blocks.len(),
{
    if blocks.len() == 0 {
        Seq::empty()
    } else {
        block_text(blocks[0]) + blocks_text(blocks.drop_first())
    }
}

/// The blocks that a rule is written as: its own block, if it has
/// properties of its own, and then the blocks of its nested rules.
pub open spec fn blocks_of_rule(query: Seq<char>, block: Seq<DeclarationModel>) -> Seq<Block>
    decreases block, block.len() + 1,
{
    if has_properties(block, 0) {
        seq![Block { query, properties: own_properties(block, 0) }] + blocks_of_rules(block, 0)
    } else {
        blocks_of_rules(block, 0)
    }
}

/// The blocks that the rules among the declarations from `from` on are
/// written as.
pub open spec fn blocks_of_rules(block: Seq<DeclarationModel>, from: int) -> Seq<Block>
    decreases block, block.len() - from,
{
    if from < 0 || from >= block.len() {
        Seq::empty()
    } else {
        match block[from] {
            DeclarationModel::Rule { query, block: inner } => blocks_of_rule(query, inner)
                + blocks_of_rules(block, from + 1),
            _ => blocks_of_rules(block, from + 1),
        }
    }
}

/// Every block holds at least one property.
pub open spec fn no_block_is_empty(blocks: Seq<Block>) -> bool {
    forall|i: int| 0 <= i < blocks.len() ==> (#[trigger] blocks[i]).properties.len() > 0
}

/// The text of blocks that are written one behind the other is the text of
/// the first blocks followed by the text of the others.
pub proof fn lemma_blocks_text_of_both(first: Seq<Block>, others: Seq<Block>)
    ensures
        blocks_text(first + others) == blocks_text(first) + blocks_text(others),
    decreases first.len(),
{
    if first.len() == 0 {
        assert(first + others =~= others);
        assert(blocks_text(first) + blocks_text(others) =~= blocks_text(others));
    } else {
        let all = first + others;
        assert(all[0] == first[0]);
        assert(all.drop_first() =~= first.drop_first() + others);
        lemma_blocks_text_of_both(first.drop_first(), others);
        assert(blocks_text(all) =~= blocks_text(first) + blocks_text(others));
    }
}

/// The text of the properties among declarations is the text of these
/// properties listed, and there is such a property exactly if the list is
/// not empty.
pub proof fn lemma_own_properties(block: Seq<DeclarationModel>, from: int)
    requires
        0 <= from <= block.len(),
    ensures
        properties_text(block, from) == listed_text(own_properties(block, from)),
        has_properties(block, from) == (own_properties(block, from).len() > 0),
    decreases block.len() - from,
{
    if from < block.len() {
        lemma_own_properties(block, from + 1);
        match block[from] {
            DeclarationModel::SetProperty { property, value } => {
                let rest = own_properties(block, from + 1);
                let all = own_properties(block, from);
                assert(all == seq![(property, value)] + rest);
                assert(all[0] == (property, value));
                assert(all.drop_first() =~= rest);
                assert(properties_text(block, from) =~= listed_text(all));
            },
            _ => {},
        }
    }
}

/// The text of a rule is the text of the blocks that it is written as, and
/// none of these blocks is empty.
pub proof fn lemma_rule_is_its_blocks(query: Seq<char>, block: Seq<DeclarationModel>)
    ensures
        rule_text(query, block) == blocks_text(blocks_of_rule(query, block)),
        no_block_is_empty(blocks_of_rule(query, block)),
    decreases block, block.len() + 1,
{
    lemma_rules_are_their_blocks(block, 0);
    lemma_own_properties(block, 0);
    let nested = blocks_of_rules(block, 0);
    if has_properties(block, 0) {
        let own = Block { query, properties: own_properties(block, 0) };
        let all = seq![own] + nested;
        lemma_blocks_text_of_both(seq![own], nested);
        assert(seq![own].drop_first() =~= Seq::<Block>::empty());
        assert(seq![own][0] == own);
        assert(blocks_text(Seq::<Block>::empty()) =~= Seq::<char>::empty());
        assert(blocks_text(seq![own]) == block_text(own) + blocks_text(seq![own].drop_first()));
        assert(blocks_text(seq![own]) =~= block_text(own));
        assert(rule_text(query, block) =~= blocks_text(all));
        assert forall|i: int| 0 <= i < all.len() implies (#[trigger] all[i]).properties.len()
            > 0 by {
            if i > 0 {
                assert(all[i] == nested[i - 1]);
            }
        }
    }
}

/// The text of the rules among declarations is the text of the blocks that
/// they are written as, and none of these blocks is empty.
pub proof fn lemma_rules_are_their_blocks(block: Seq<DeclarationModel>, from: int)
    requires
        0 <= from <= block.len(),
    ensures
        rules_text(block, from) == blocks_text(blocks_of_rules(block, from)),
        no_block_is_empty(blocks_of_rules(block, from)),
    decreases block, block.len() - from,
{
    if from < block.len() {
        lemma_rules_are_their_blocks(block, from + 1);
        match block[from] {
            DeclarationModel::Rule { query, block: inner } => {
                lemma_rule_is_its_blocks(query, inner);
                let first = blocks_of_rule(query, inner);
                let others = blocks_of_rules(block, from + 1);
                lemma_blocks_text_of_both(first, others);
                let all = first + others;
                assert forall|i: int| 0 <= i < all.len() implies (
                #[trigger] all[i]).properties.len() > 0 by {
                    if i < first.len() {
                        assert(all[i] == first[i]);
                    } else {
                        assert(all[i] == others[i - first.len()]);
                    }
                }
            },
            _ => {},
        }
    } else {
        assert(blocks_text(Seq::<Block>::empty()) =~= Seq::<char>::empty());
    }
}

/// What a style compiles to under a base selector is written block by
/// block, and no block is empty. Where the style has no property of its
/// own, there is no block for the base selector alone: the blocks are those
/// of its nested rules.
pub proof fn lemma_compiled_has_no_empty_block(
    sx: Seq<(Seq<char>, SxValueModel)>,
    scope: Scope,
    base: Seq<char>,
)
    requires
        compiled(sx, scope, Some(base)) is Ok,
    ensures
        ({
            let block = declarations_from(sx, scope, seq![base], scope.results.len(), 0)->Ok_0;
            &&& compiled(sx, scope, Some(base)) == Ok::<Seq<char>, ErrorModel>(
                blocks_text(blocks_of_rule(base, block)),
            )
            &&& no_block_is_empty(blocks_of_rule(base, block))
            &&& only_rules(block, 0) ==> blocks_of_rule(base, block) == blocks_of_rules(block, 0)
        }),
{
    let block = declarations_from(sx, scope, seq![base], scope.results.len(), 0)->Ok_0;
    lemma_rule_is_its_blocks(base, block);
    if only_rules(block, 0) {
        lemma_no_properties(block, 0);
    }
}

} // verus!
