//! The policy an operator writes, read from settings.
//!
//! Each rule has a name, and the settings under that name are its fields. A rule that cannot be
//! read is refused with the reason and never skipped: a policy with a rule dropped permits more
//! than it says.

use crate::lists;
use crate::config::{self, Configuration};
use crate::execute::TableName;
use crate::numerals::{self, parse_natural};
use crate::text::{self, same, split_once, to_lower, to_lower_ascii, trim, without_prefix};
use crate::textmap::{self, in_order};
use vstd::prelude::*;

verus! {

/// Whose data a rule is about.
#[derive(Clone, Copy, PartialEq, Eq, Debug, Structural)]
pub struct TenantId {
    /// The tenant's number.
    pub id: u128,
}

/// What a rule is about doing.
#[derive(Clone, Copy, PartialEq, Eq, Debug, Structural)]
pub enum Action {
    /// Reading rows.
    Read,
    /// Adding rows.
    Insert,
    /// Changing rows.
    Update,
    /// Removing rows.
    Delete,
}

/// Whether a rule permits or forbids.
#[derive(Clone, Copy, PartialEq, Eq, Debug, Structural)]
pub enum Effect {
    /// It permits.
    Grant,
    /// It forbids, whatever else permits.
    Deny,
}

/// What is shown of a column in place of its values.
#[derive(PartialEq, Eq, Debug)]
pub enum Mask {
    /// Nothing.
    Null,
    /// Always this.
    Constant {
        /// What is shown.
        value: String,
    },
    /// Only some characters.
    Partial {
        /// How many.
        keep: usize,
    },
}

/// What a mask says.
pub enum MaskView {
    /// Nothing is shown.
    Null,
    /// Always this is shown.
    Constant(Seq<char>),
    /// This many characters are shown.
    Partial(int),
}

impl View for Mask {
    type V = MaskView;

    open spec fn view(&self) -> MaskView {
        match self {
            Mask::Null => MaskView::Null,
            Mask::Constant { value } => MaskView::Constant(value@),
            Mask::Partial { keep } => MaskView::Partial(*keep as int),
        }
    }
}

/// A rule: for a role, on a table, about an action.
#[derive(PartialEq, Eq, Debug)]
pub struct Rule {
    /// Whose data it is about.
    pub tenant: TenantId,
    /// Who it is about.
    pub role: String,
    /// Which table it is about.
    pub table: TableName,
    /// What it is about doing.
    pub action: Action,
    /// Whether it permits.
    pub effect: Effect,
    /// The rows it is about, where not all.
    pub predicate: Option<String>,
    /// What is shown of columns in place of their values.
    pub masks: Vec<(String, Mask)>,
}

/// What a rule says.
#[verifier::ext_equal]
pub struct RuleView {
    /// Whose data it is about.
    pub tenant: TenantId,
    /// Who it is about.
    pub role: Seq<char>,
    /// Which table it is about.
    pub table: (Seq<char>, Seq<char>),
    /// What it is about doing.
    pub action: Action,
    /// Whether it permits.
    pub effect: Effect,
    /// The rows it is about, where not all.
    pub predicate: Option<Seq<char>>,
    /// What is shown of columns in place of their values.
    pub masks: Seq<(Seq<char>, MaskView)>,
}

impl View for Rule {
    type V = RuleView;

    open spec fn view(&self) -> RuleView {
        RuleView {
            tenant: self.tenant,
            role: self.role@,
            table: self.table@,
            action: self.action,
            effect: self.effect,
            predicate: crate::wire::cell(self.predicate),
            masks: self.masks@.map_values(|m: (String, Mask)| (m.0@, m.1@)),
        }
    }
}

/// A set of rules.
#[derive(PartialEq, Eq, Debug)]
pub struct PolicySet {
    /// The rules.
    pub rules: Vec<Rule>,
}

impl View for PolicySet {
    type V = Seq<RuleView>;

    open spec fn view(&self) -> Seq<RuleView> {
        self.rules@.map_values(|rule: Rule| rule@)
    }
}

impl PolicySet {
    /// No rules at all.
    pub fn new() -> (r: Self)
        ensures
            r@ == Seq::<RuleView>::empty(),
    {
        let r = PolicySet { rules: Vec::new() };
        assert(r@ =~= Seq::<RuleView>::empty());
        r
    }

    /// The rules, with one more behind them.
    pub fn with(self, rule: Rule) -> (r: Self)
        ensures
            r@ == self@.push(rule@),
    {
        let ghost was = self@;
        let ghost added = rule@;
        let mut rules = self.rules;
        rules.push(rule);
        let r = PolicySet { rules };
        assert(r@ =~= was.push(added));
        r
    }

    /// How many rules there are.
    pub fn len(&self) -> (r: usize)
        ensures
            r == self@.len(),
    {
        self.rules.len()
    }
}

// --- one mask ---------------------------------------------------------------------------------

/// What is said of a mask that cannot be read.
pub open spec fn mask_refusal(rule: Seq<char>, column: Seq<char>, written: Seq<char>, why: Seq<char>) -> Seq<char> {
    "the policy rule `"@ + rule + "` masks `"@ + column + "` with `"@ + written + "`, and "@ + why
        + ". Write `null`, `constant:<text>` or `partial:<how many characters to keep>`"@
}

/// The mask an operator wrote against a column. Nothing written is no values shown: that is how a
/// null arrives.
pub open spec fn mask_written(rule: Seq<char>, column: Seq<char>, written: Seq<char>) -> Result<MaskView, Seq<char>> {
    match text::split_at_first(written, ':') {
        None => if written.len() == 0 || text::lower_ascii(written) == "null"@ {
            Ok(MaskView::Null)
        } else {
            Err(mask_refusal(rule, column, written, "that is not a mask this server has"@))
        },
        Some((kind, rest)) => if text::lower_ascii(kind) == "constant"@ {
            Ok(MaskView::Constant(rest))
        } else if text::lower_ascii(kind) == "partial"@ {
            match numerals::natural(text::trimmed(rest), usize::MAX as int) {
                Some(keep) => Ok(MaskView::Partial(keep)),
                None => Err(
                    mask_refusal(rule, column, written, "a partial mask keeps a number of characters"@),
                ),
            }
        } else {
            Err(mask_refusal(rule, column, written, "`"@ + kind + "` is not a kind of mask"@))
        },
    }
}

fn refuse_mask(rule: &str, column: &str, written: &str, why: &str) -> (r: String)
    ensures
        r@ == mask_refusal(rule@, column@, written@, why@),
{
    let mut r = "the policy rule `".to_string();
    r.append(rule);
    r.append("` masks `");
    r.append(column);
    r.append("` with `");
    r.append(written);
    r.append("`, and ");
    r.append(why);
    r.append(". Write `null`, `constant:<text>` or `partial:<how many characters to keep>`");
    r
}

/// The mask an operator wrote against a column.
pub fn mask(rule: &str, column: &str, written: &str) -> (r: Result<Mask, String>)
    ensures
        match r {
            Ok(mask) => mask_written(rule@, column@, written@) == Ok::<MaskView, Seq<char>>(mask@),
            Err(why) => mask_written(rule@, column@, written@) == Err::<MaskView, Seq<char>>(why@),
        },
{
    match split_once(written, ':') {
        None => {
            if written.is_empty() || same(to_lower_ascii(written).as_str(), "null") {
                Ok(Mask::Null)
            } else {
                Err(refuse_mask(rule, column, written, "that is not a mask this server has"))
            }
        },
        Some((kind, rest)) => {
            let lower = to_lower_ascii(kind.as_str());
            if same(lower.as_str(), "constant") {
                return Ok(Mask::Constant { value: rest });
            }
            if same(lower.as_str(), "partial") {
                if let Some(keep) = parse_natural(trim(rest.as_str()).as_str()) {
                    if keep <= usize::MAX as u64 {
                        return Ok(Mask::Partial { keep: keep as usize });
                    }
                }
                return Err(refuse_mask(rule, column, written, "a partial mask keeps a number of characters"));
            }
            let mut why = "`".to_string();
            why.append(kind.as_str());
            why.append("` is not a kind of mask");
            Err(refuse_mask(rule, column, written, why.as_str()))
        },
    }
}

// --- one rule ---------------------------------------------------------------------------------

/// What is said of a rule that lacks a field.
pub open spec fn lacks(rule: Seq<char>, field: Seq<char>) -> Seq<char> {
    "the policy rule `"@ + rule + "` has no `"@ + field
        + "`. A rule needs `role`, `table` and `action`; `effect`, `where` and `mask` are optional"@
}

/// The table a rule names: with its schema, because a bare name means one table today and two the
/// day a schema is added.
pub open spec fn rule_table(rule: Seq<char>, table: Seq<char>) -> Result<(Seq<char>, Seq<char>), Seq<char>> {
    match text::split_at_first(table, '.') {
        None => Err(
            "the policy rule `"@ + rule + "` names the table `"@ + table
                + "` without a schema. A policy is the one place an ambiguous name is fatal: `orders` means one table today and two the day somebody adds a schema, and the rule would then apply to neither"@,
        ),
        Some((schema, bare)) => if schema.len() == 0 || bare.len() == 0 {
            Err("the policy rule `"@ + rule + "` names the table `"@ + table + "`, which has an empty half"@)
        } else {
            Ok((schema, bare))
        },
    }
}

/// The action a rule names, given in lower case.
pub open spec fn rule_action(rule: Seq<char>, action: Seq<char>) -> Result<Action, Seq<char>> {
    if action == "read"@ {
        Ok(Action::Read)
    } else if action == "insert"@ {
        Ok(Action::Insert)
    } else if action == "update"@ {
        Ok(Action::Update)
    } else if action == "delete"@ {
        Ok(Action::Delete)
    } else {
        Err(
            "the policy rule `"@ + rule + "` asks for the action `"@ + action
                + "`, and this server has `read`, `insert`, `update` and `delete`"@,
        )
    }
}

/// The effect a rule names, given in lower case; it permits where it names none.
pub open spec fn rule_effect(rule: Seq<char>, effect: Option<Seq<char>>) -> Result<Effect, Seq<char>> {
    match effect {
        None => Ok(Effect::Grant),
        Some(named) => if named == "grant"@ || named == "allow"@ {
            Ok(Effect::Grant)
        } else if named == "deny"@ || named == "forbid"@ {
            Ok(Effect::Deny)
        } else {
            Err(
                "the policy rule `"@ + rule + "` has the effect `"@ + named
                    + "`, and this server has `grant` and `deny`"@,
            )
        },
    }
}

/// What an operator wrote against the columns of a rule, in the order of the columns: the masks, or
/// what is said of the first that cannot be read.
pub open spec fn rule_masks(rule: Seq<char>, fields: Seq<(Seq<char>, Seq<char>)>) -> Result<
    Seq<(Seq<char>, MaskView)>,
    Seq<char>,
>
    decreases fields.len(),
{
    if fields.len() == 0 {
        Ok(Seq::empty())
    } else {
        match rule_masks(rule, fields.drop_last()) {
            Err(why) => Err(why),
            Ok(before) => {
                let field = fields.last().0;
                if !text::begins_with(field, "mask."@) {
                    Ok(before)
                } else {
                    let column = field.skip("mask."@.len() as int);
                    match mask_written(rule, column, fields.last().1) {
                        Ok(mask) => Ok(before.push((column, mask))),
                        Err(why) => Err(why),
                    }
                }
            },
        }
    }
}

/// The value of a field, where a rule has it.
pub open spec fn field_of(fields: Seq<(Seq<char>, Seq<char>)>, name: Seq<char>) -> Option<Seq<char>>
    decreases fields.len(),
{
    if fields.len() == 0 {
        None
    } else if fields.last().0 == name {
        Some(fields.last().1)
    } else {
        field_of(fields.drop_last(), name)
    }
}

/// The rule its fields spell, or what is said of the first thing that cannot be read: the table,
/// then the action, the role, the effect and the masks.
pub open spec fn rule_written(tenant: TenantId, name: Seq<char>, fields: Seq<(Seq<char>, Seq<char>)>) -> Result<
    RuleView,
    Seq<char>,
> {
    match field_of(fields, "table"@) {
        None => Err(lacks(name, "table"@)),
        Some(table) => match rule_table(name, table) {
            Err(why) => Err(why),
            Ok(reference) => match field_of(fields, "action"@) {
                None => Err(lacks(name, "action"@)),
                Some(action) => match rule_action(name, text::lowercase(action)) {
                    Err(why) => Err(why),
                    Ok(action) => match field_of(fields, "role"@) {
                        None => Err(lacks(name, "role"@)),
                        Some(role) => match rule_effect(
                            name,
                            match field_of(fields, "effect"@) {
                                Some(effect) => Some(text::lowercase(effect)),
                                None => None,
                            },
                        ) {
                            Err(why) => Err(why),
                            Ok(effect) => match rule_masks(name, fields) {
                                Err(why) => Err(why),
                                Ok(masks) => Ok(
                                    RuleView {
                                        tenant,
                                        role,
                                        table: reference,
                                        action,
                                        effect,
                                        predicate: field_of(fields, "where"@),
                                        masks,
                                    },
                                ),
                            },
                        },
                    },
                },
            },
        },
    }
}

fn no_field(rule: &str, field: &str) -> (r: String)
    ensures
        r@ == lacks(rule@, field@),
{
    let mut r = "the policy rule `".to_string();
    r.append(rule);
    r.append("` has no `");
    r.append(field);
    r.append("`. A rule needs `role`, `table` and `action`; `effect`, `where` and `mask` are optional");
    r
}

fn read_table(rule: &str, table: &str) -> (r: Result<TableName, String>)
    ensures
        match r {
            Ok(name) => rule_table(rule@, table@) == Ok::<(Seq<char>, Seq<char>), Seq<char>>(name@),
            Err(why) => rule_table(rule@, table@) == Err::<(Seq<char>, Seq<char>), Seq<char>>(why@),
        },
{
    let mut head = "the policy rule `".to_string();
    head.append(rule);
    head.append("` names the table `");
    head.append(table);
    match split_once(table, '.') {
        None => {
            head.append(
                "` without a schema. A policy is the one place an ambiguous name is fatal: `orders` means one table today and two the day somebody adds a schema, and the rule would then apply to neither",
            );
            Err(head)
        },
        Some((schema, bare)) => {
            if schema.as_str().is_empty() || bare.as_str().is_empty() {
                head.append("`, which has an empty half");
                Err(head)
            } else {
                Ok(TableName { schema, table: bare })
            }
        },
    }
}

fn read_action(rule: &str, action: &str) -> (r: Result<Action, String>)
    ensures
        match r {
            Ok(named) => rule_action(rule@, action@) == Ok::<Action, Seq<char>>(named),
            Err(why) => rule_action(rule@, action@) == Err::<Action, Seq<char>>(why@),
        },
{
    if same(action, "read") {
        Ok(Action::Read)
    } else if same(action, "insert") {
        Ok(Action::Insert)
    } else if same(action, "update") {
        Ok(Action::Update)
    } else if same(action, "delete") {
        Ok(Action::Delete)
    } else {
        let mut why = "the policy rule `".to_string();
        why.append(rule);
        why.append("` asks for the action `");
        why.append(action);
        why.append("`, and this server has `read`, `insert`, `update` and `delete`");
        Err(why)
    }
}

fn read_effect(rule: &str, effect: Option<&String>) -> (r: Result<Effect, String>)
    ensures
        ({
            let named = match effect {
                Some(effect) => Some(text::lowercase(effect@)),
                None => None,
            };
            match r {
                Ok(effect) => rule_effect(rule@, named) == Ok::<Effect, Seq<char>>(effect),
                Err(why) => rule_effect(rule@, named) == Err::<Effect, Seq<char>>(why@),
            }
        }),
{
    match effect {
        None => Ok(Effect::Grant),
        Some(effect) => {
            let named = to_lower(effect.as_str());
            if same(named.as_str(), "grant") || same(named.as_str(), "allow") {
                Ok(Effect::Grant)
            } else if same(named.as_str(), "deny") || same(named.as_str(), "forbid") {
                Ok(Effect::Deny)
            } else {
                let mut why = "the policy rule `".to_string();
                why.append(rule);
                why.append("` has the effect `");
                why.append(named.as_str());
                why.append("`, and this server has `grant` and `deny`");
                Err(why)
            }
        },
    }
}

fn read_masks(rule: &str, fields: &Vec<(String, String)>) -> (r: Result<Vec<(String, Mask)>, String>)
    ensures
        match r {
            Ok(masks) => rule_masks(rule@, config::pairs(fields@)) == Ok::<Seq<(Seq<char>, MaskView)>, Seq<char>>(
                masks@.map_values(|m: (String, Mask)| (m.0@, m.1@)),
            ),
            Err(why) => rule_masks(rule@, config::pairs(fields@)) == Err::<Seq<(Seq<char>, MaskView)>, Seq<char>>(why@),
        },
{
    let ghost all = config::pairs(fields@);
    let mut masks: Vec<(String, Mask)> = Vec::new();
    let mut i: usize = 0;
    assert(masks@.map_values(|m: (String, Mask)| (m.0@, m.1@)) =~= Seq::empty());
    while i < fields.len()
        invariant
            i <= fields@.len(),
            all == config::pairs(fields@),
            rule_masks(rule@, all.take(i as int)) == Ok::<Seq<(Seq<char>, MaskView)>, Seq<char>>(
                masks@.map_values(|m: (String, Mask)| (m.0@, m.1@)),
            ),
        decreases fields@.len() - i,
    {
        assert(all.take(i + 1).drop_last() =~= all.take(i as int));
        if let Some(column) = without_prefix(fields[i].0.as_str(), "mask.") {
            match mask(rule, column.as_str(), fields[i].1.as_str()) {
                Ok(m) => {
                    let ghost was = masks@;
                    let ghost pair = (column@, m@);
                    masks.push((column, m));
                    assert(masks@.map_values(|m: (String, Mask)| (m.0@, m.1@)) =~= was.map_values(
                        |m: (String, Mask)| (m.0@, m.1@),
                    ).push(pair));
                },
                Err(why) => {
                    proof {
                        lemma_masks_stop(rule@, all, i + 1);
                    }
                    return Err(why);
                },
            }
        }
        i = i + 1;
    }
    assert(all.take(all.len() as int) =~= all);
    Ok(masks)
}

/// What is said of the first mask that cannot be read is said of the whole.
proof fn lemma_masks_stop(rule: Seq<char>, fields: Seq<(Seq<char>, Seq<char>)>, i: int)
    requires
        0 <= i <= fields.len(),
        rule_masks(rule, fields.take(i)) is Err,
    ensures
        rule_masks(rule, fields) == rule_masks(rule, fields.take(i)),
    decreases fields.len(),
{
    if i < fields.len() {
        assert(fields.drop_last().take(i) =~= fields.take(i));
        lemma_masks_stop(rule, fields.drop_last(), i);
    } else {
        assert(fields.take(i) =~= fields);
    }
}

fn field<'a>(fields: &'a Vec<(String, String)>, name: &str) -> (r: Option<&'a String>)
    ensures
        match r {
            Some(value) => field_of(config::pairs(fields@), name@) == Some(value@),
            None => field_of(config::pairs(fields@), name@) is None,
        },
{
    let ghost all = config::pairs(fields@);
    let mut i: usize = fields.len();
    assert(all.take(i as int) =~= all);
    while i > 0
        invariant
            i <= fields@.len(),
            all == config::pairs(fields@),
            field_of(all, name@) == field_of(all.take(i as int), name@),
        decreases i,
    {
        i = i - 1;
        assert(all.take(i + 1).drop_last() =~= all.take(i as int));
        if same(fields[i].0.as_str(), name) {
            return Some(&fields[i].1);
        }
    }
    None
}

/// The rule its fields spell, or what is said of the first thing that cannot be read.
pub fn one(tenant: TenantId, name: &str, fields: &Vec<(String, String)>) -> (r: Result<Rule, String>)
    ensures
        match r {
            Ok(rule) => rule_written(tenant, name@, config::pairs(fields@)) == Ok::<RuleView, Seq<char>>(rule@),
            Err(why) => rule_written(tenant, name@, config::pairs(fields@)) == Err::<RuleView, Seq<char>>(why@),
        },
{
    let table = match field(fields, "table") {
        None => {
            return Err(no_field(name, "table"));
        },
        Some(table) => match read_table(name, table.as_str()) {
            Ok(table) => table,
            Err(why) => {
                return Err(why);
            },
        },
    };
    let action = match field(fields, "action") {
        None => {
            return Err(no_field(name, "action"));
        },
        Some(action) => match read_action(name, to_lower(action.as_str()).as_str()) {
            Ok(action) => action,
            Err(why) => {
                return Err(why);
            },
        },
    };
    let role = match field(fields, "role") {
        None => {
            return Err(no_field(name, "role"));
        },
        Some(role) => role.clone(),
    };
    let effect = match read_effect(name, field(fields, "effect")) {
        Ok(effect) => effect,
        Err(why) => {
            return Err(why);
        },
    };
    let predicate: Option<String> = match field(fields, "where") {
        Some(predicate) => Some(predicate.clone()),
        None => None,
    };
    let masks = match read_masks(name, fields) {
        Ok(masks) => masks,
        Err(why) => {
            return Err(why);
        },
    };
    let rule = Rule { tenant, role, table, action, effect, predicate, masks };
    assert(rule@ =~= rule_written(tenant, name@, config::pairs(fields@))->Ok_0);
    Ok(rule)
}

// --- the policy -------------------------------------------------------------------------------

/// What is said of a setting that names no field of a rule.
pub open spec fn names_no_field(key: Seq<char>) -> Seq<char> {
    "`policy.rules."@ + key
        + "` names no field. A rule is `policy.rules.<name>.<field>`, and a bare name with a value under it is a rule this server would have to guess the shape of"@
}

/// The first setting that names no field of a rule.
pub open spec fn first_fieldless(settings: Seq<(Seq<char>, Seq<char>)>) -> Option<Seq<char>>
    decreases settings.len(),
{
    if settings.len() == 0 {
        None
    } else {
        match first_fieldless(settings.drop_last()) {
            Some(key) => Some(key),
            None => if text::split_at_first(settings.last().0, '.') is None {
                Some(settings.last().0)
            } else {
                None
            },
        }
    }
}

/// The name of the rule that a setting is a field of.
pub open spec fn rule_name(key: Seq<char>) -> Seq<char> {
    text::split_at_first(key, '.')->Some_0.0
}

/// The name of the rule that each setting is a field of.
pub open spec fn rule_names(settings: Seq<(Seq<char>, Seq<char>)>) -> Seq<Seq<char>> {
    settings.map_values(|setting: (Seq<char>, Seq<char>)| rule_name(setting.0))
}

/// The fields of one rule.
pub open spec fn fields_of(settings: Seq<(Seq<char>, Seq<char>)>, name: Seq<char>) -> Seq<(Seq<char>, Seq<char>)>
    decreases settings.len(),
{
    if settings.len() == 0 {
        Seq::empty()
    } else {
        let before = fields_of(settings.drop_last(), name);
        match text::split_at_first(settings.last().0, '.') {
            Some((rule, field)) => if rule == name {
                before.push((field, settings.last().1))
            } else {
                before
            },
            None => before,
        }
    }
}

/// The rules of these names, or what is said of the first that cannot be read.
pub open spec fn rules_of(tenant: TenantId, settings: Seq<(Seq<char>, Seq<char>)>, names: Seq<Seq<char>>) -> Result<
    Seq<RuleView>,
    Seq<char>,
>
    decreases names.len(),
{
    if names.len() == 0 {
        Ok(Seq::empty())
    } else {
        match rules_of(tenant, settings, names.drop_last()) {
            Err(why) => Err(why),
            Ok(before) => match rule_written(tenant, names.last(), fields_of(settings, names.last())) {
                Err(why) => Err(why),
                Ok(rule) => Ok(before.push(rule)),
            },
        }
    }
}

/// Whether settings read as a policy, as none, or as something that cannot be read: the rules stand
/// in the order of their names, each once.
pub open spec fn reads_as(
    settings: Seq<(Seq<char>, Seq<char>)>,
    tenant: TenantId,
    outcome: Result<Option<Seq<RuleView>>, Seq<char>>,
) -> bool {
    match first_fieldless(settings) {
        Some(key) => outcome == Err::<Option<Seq<RuleView>>, Seq<char>>(names_no_field(key)),
        None => if settings.len() == 0 {
            outcome == Ok::<Option<Seq<RuleView>>, Seq<char>>(None)
        } else {
            exists|names: Seq<Seq<char>>| #[trigger]
                textmap::in_order_of(names, rule_names(settings)) && outcome == (match rules_of(
                    tenant,
                    settings,
                    names,
                ) {
                    Ok(rules) => Ok::<Option<Seq<RuleView>>, Seq<char>>(Some(rules)),
                    Err(why) => Err(why),
                })
        },
    }
}

/// What was read, by what the rules say.
pub open spec fn said(outcome: Result<Option<PolicySet>, String>) -> Result<Option<Seq<RuleView>>, Seq<char>> {
    match outcome {
        Ok(Some(policy)) => Ok(Some(policy@)),
        Ok(None) => Ok(None),
        Err(why) => Err(why@),
    }
}

proof fn lemma_fieldless_stop(settings: Seq<(Seq<char>, Seq<char>)>, i: int)
    requires
        0 <= i <= settings.len(),
        first_fieldless(settings.take(i)) is Some,
    ensures
        first_fieldless(settings) == first_fieldless(settings.take(i)),
    decreases settings.len(),
{
    if i < settings.len() {
        assert(settings.drop_last().take(i) =~= settings.take(i));
        lemma_fieldless_stop(settings.drop_last(), i);
    } else {
        assert(settings.take(i) =~= settings);
    }
}

proof fn lemma_rules_stop(tenant: TenantId, settings: Seq<(Seq<char>, Seq<char>)>, names: Seq<Seq<char>>, i: int)
    requires
        0 <= i <= names.len(),
        rules_of(tenant, settings, names.take(i)) is Err,
    ensures
        rules_of(tenant, settings, names) == rules_of(tenant, settings, names.take(i)),
    decreases names.len(),
{
    if i < names.len() {
        assert(names.drop_last().take(i) =~= names.take(i));
        lemma_rules_stop(tenant, settings, names.drop_last(), i);
    } else {
        assert(names.take(i) =~= names);
    }
}

fn gather_fields(settings: &Vec<(String, String)>, name: &str) -> (r: Vec<(String, String)>)
    ensures
        config::pairs(r@) == fields_of(config::pairs(settings@), name@),
{
    let ghost all = config::pairs(settings@);
    let mut r: Vec<(String, String)> = Vec::new();
    let mut i: usize = 0;
    assert(config::pairs(r@) =~= Seq::empty());
    while i < settings.len()
        invariant
            i <= settings@.len(),
            all == config::pairs(settings@),
            config::pairs(r@) == fields_of(all.take(i as int), name@),
        decreases settings@.len() - i,
    {
        assert(all.take(i + 1).drop_last() =~= all.take(i as int));
        if let Some((rule, field)) = split_once(settings[i].0.as_str(), '.') {
            if same(rule.as_str(), name) {
                let ghost was = r@;
                let ghost pair = (field@, settings@[i as int].1@);
                r.push((field, settings[i].1.clone()));
                assert(config::pairs(r@) =~= config::pairs(was).push(pair));
            }
        }
        i = i + 1;
    }
    assert(all.take(all.len() as int) =~= all);
    r
}

/// The policy an operator wrote, or none where they wrote none.
pub fn read(settings: &Configuration, tenant: TenantId) -> (r: Result<Option<PolicySet>, String>)
    ensures
        reads_as(settings.listing(), tenant, said(r)),
{
    let entries = settings.entries();
    let ghost all = settings.listing();
    let mut names: Vec<String> = Vec::new();
    let mut i: usize = 0;
    assert(text::views(names@) =~= rule_names(all.take(0)));
    while i < entries.len()
        invariant
            i <= entries@.len(),
            all == config::pairs(entries@),
            first_fieldless(all.take(i as int)) is None,
            text::views(names@) == rule_names(all.take(i as int)),
            all == settings.listing(),
        decreases entries@.len() - i,
    {
        assert(all.take(i + 1).drop_last() =~= all.take(i as int));
        match split_once(entries[i].0.as_str(), '.') {
            None => {
                let mut why = "`policy.rules.".to_string();
                why.append(entries[i].0.as_str());
                why.append(
                    "` names no field. A rule is `policy.rules.<name>.<field>`, and a bare name with a value under it is a rule this server would have to guess the shape of",
                );
                proof {
                    lemma_fieldless_stop(all, i + 1);
                }
                return Err(why);
            },
            Some((rule, _)) => {
                let ghost was = names@;
                let ghost name = rule@;
                names.push(rule);
                assert(text::views(names@) =~= text::views(was).push(name));
                assert(rule_names(all.take(i + 1)) =~= rule_names(all.take(i as int)).push(name));
            },
        }
        i = i + 1;
    }
    assert(all.take(all.len() as int) =~= all);
    if entries.len() == 0 {
        return Ok(None);
    }
    let sorted = in_order(&names);
    let ghost order = text::views(sorted@);
    let mut policy = PolicySet::new();
    let mut k: usize = 0;
    while k < sorted.len()
        invariant
            k <= sorted@.len(),
            all == config::pairs(entries@),
            order == text::views(sorted@),
            rules_of(tenant, all, order.take(k as int)) == Ok::<Seq<RuleView>, Seq<char>>(policy@),
            all == settings.listing(),
            all.len() > 0,
            first_fieldless(all) is None,
            textmap::in_order_of(order, rule_names(all)),
        decreases sorted@.len() - k,
    {
        assert(order.take(k + 1).drop_last() =~= order.take(k as int));
        let fields = gather_fields(entries, sorted[k].as_str());
        match one(tenant, sorted[k].as_str(), &fields) {
            Ok(rule) => {
                policy = policy.with(rule);
            },
            Err(why) => {
                proof {
                    lemma_rules_stop(tenant, all, order, k + 1);
                }
                return Err(why);
            },
        }
        k = k + 1;
    }
    assert(order.take(order.len() as int) =~= order);
    Ok(Some(policy))
}

proof fn lemma_rules(tenant: TenantId, settings: Seq<(Seq<char>, Seq<char>)>, names: Seq<Seq<char>>, i: int)
    requires
        rules_of(tenant, settings, names) is Ok,
        0 <= i < names.len(),
    ensures
        rules_of(tenant, settings, names)->Ok_0.len() == names.len(),
        rule_written(tenant, names[i], fields_of(settings, names[i])) == Ok::<RuleView, Seq<char>>(
            rules_of(tenant, settings, names)->Ok_0[i],
        ),
    decreases names.len(),
{
    reveal_with_fuel(rules_of, 2);
    if i < names.len() - 1 {
        lemma_rules(tenant, settings, names.drop_last(), i);
    } else if names.len() > 1 {
        lemma_rules(tenant, settings, names.drop_last(), 0);
    }
}

/// No rule is dropped: where settings read as a policy, the rule of every setting was read and
/// stands in the policy.
pub proof fn no_rule_is_dropped(settings: Seq<(Seq<char>, Seq<char>)>, tenant: TenantId, rules: Seq<RuleView>, i: int)
    requires
        reads_as(settings, tenant, Ok(Some(rules))),
        0 <= i < settings.len(),
    ensures
        ({
            let name = rule_name(settings[i].0);
            exists|k: int|
                0 <= k < rules.len() && rule_written(tenant, name, fields_of(settings, name)) == Ok::<
                    RuleView,
                    Seq<char>,
                >(#[trigger] rules[k])
        }),
{
    let names = choose|names: Seq<Seq<char>>| #[trigger]
        textmap::in_order_of(names, rule_names(settings)) && Ok::<Option<Seq<RuleView>>, Seq<char>>(Some(rules)) == (
        match rules_of(tenant, settings, names) {
            Ok(rules) => Ok::<Option<Seq<RuleView>>, Seq<char>>(Some(rules)),
            Err(why) => Err(why),
        });
    let name = rule_name(settings[i].0);
    assert(rule_names(settings)[i] == name);
    assert(names.contains(name));
    let k = choose|k: int| 0 <= k < names.len() && names[k] == name;
    lemma_rules(tenant, settings, names, k);
    assert(rules[k] == rules[k]);
}

/// Whether settings hold a value under a key.
pub open spec fn has_setting(settings: Seq<(Seq<char>, Seq<char>)>, key: Seq<char>, value: Seq<char>) -> bool {
    settings.contains((key, value))
}

/// Whether no key of these settings occurs twice.
pub open spec fn distinct_keys(settings: Seq<(Seq<char>, Seq<char>)>) -> bool {
    forall|i: int, j: int|
        0 <= i < settings.len() && 0 <= j < settings.len() && (#[trigger] settings[i]).0 == (#[trigger] settings[j]).0
            ==> i == j
}

/// Whether a mask shows what an operator wrote: nothing at all, what stands behind `constant:`, or as
/// many characters as the number behind `partial:` says.
pub open spec fn mask_says(written: Seq<char>, mask: MaskView) -> bool {
    match mask {
        MaskView::Null => written.len() == 0 || text::lower_ascii(written) == "null"@,
        MaskView::Constant(shown) => exists|kind: Seq<char>|
            written == #[trigger] (kind + seq![':']) + shown && text::lower_ascii(kind) == "constant"@,
        MaskView::Partial(keep) => exists|kind: Seq<char>, rest: Seq<char>|
            written == #[trigger] (kind + seq![':'] + rest) && text::lower_ascii(kind) == "partial"@ && (
            numerals::spells(text::trimmed(rest), keep) || text::trimmed(rest).len() > 0 && text::trimmed(rest)[0] == '+'
                && numerals::spells(text::trimmed(rest).skip(1), keep)),
    }
}

/// Whether masks hold one for a column that shows what was written.
pub open spec fn shows(masks: Seq<(Seq<char>, MaskView)>, column: Seq<char>, written: Seq<char>) -> bool {
    exists|m: int| 0 <= m < masks.len() && (#[trigger] masks[m]).0 == column && mask_says(written, masks[m].1)
}

/// Whether a mask was written, under its column's name behind `head`.
pub open spec fn is_asked_for(
    settings: Seq<(Seq<char>, Seq<char>)>,
    head: Seq<char>,
    mask: (Seq<char>, MaskView),
) -> bool {
    exists|written: Seq<char>| #[trigger] has_setting(settings, head + mask.0, written) && mask_says(written, mask.1)
}

/// Whether a rule says what the settings under its name say: its role and its table as written, its
/// action and its effect by their words, its predicate where one is written and only then, and a mask
/// for each column that one is written for.
pub open spec fn rule_says(settings: Seq<(Seq<char>, Seq<char>)>, name: Seq<char>, rule: RuleView) -> bool {
    &&& has_setting(settings, name + ".role"@, rule.role)
    &&& has_setting(settings, name + ".table"@, rule.table.0 + "."@ + rule.table.1)
    &&& rule.table.0.len() > 0 && rule.table.1.len() > 0 && !rule.table.0.contains('.')
    &&& exists|action: Seq<char>| #[trigger]
        has_setting(settings, name + ".action"@, action) && text::lowercase(action) == (match rule.action {
            Action::Read => "read"@,
            Action::Insert => "insert"@,
            Action::Update => "update"@,
            Action::Delete => "delete"@,
        })
    &&& rule.effect is Deny <==> exists|effect: Seq<char>| #[trigger]
        has_setting(settings, name + ".effect"@, effect) && (text::lowercase(effect) == "deny"@ || text::lowercase(effect)
            == "forbid"@)
    &&& rule.effect is Grant <==> forall|effect: Seq<char>| #[trigger]
        has_setting(settings, name + ".effect"@, effect) ==> text::lowercase(effect) == "grant"@ || text::lowercase(
            effect,
        ) == "allow"@
    &&& match rule.predicate {
        Some(predicate) => has_setting(settings, name + ".where"@, predicate),
        None => forall|predicate: Seq<char>| !#[trigger] has_setting(settings, name + ".where"@, predicate),
    }
    &&& forall|column: Seq<char>, written: Seq<char>| #[trigger]
        has_setting(settings, name + ".mask."@ + column, written) ==> shows(rule.masks, column, written)
    &&& forall|m: int| 0 <= m < rule.masks.len() ==> is_asked_for(settings, name + ".mask."@, #[trigger] rule.masks[m])
}

/// The fields of a rule are the settings under its name.
proof fn lemma_fields(settings: Seq<(Seq<char>, Seq<char>)>, name: Seq<char>, field: Seq<char>, value: Seq<char>)
    requires
        !name.contains('.'),
    ensures
        fields_of(settings, name).contains((field, value)) <==> has_setting(settings, name + "."@ + field, value),
    decreases settings.len(),
{
    reveal_strlit(".");
    let key = name + "."@ + field;
    assert("."@ =~= seq!['.']);
    text::lemma_cut_at_first(name, field, '.');
    if settings.len() > 0 {
        let before = settings.drop_last();
        let last = settings.last();
        lemma_fields(before, name, field, value);
        text::lemma_split_at_first(last.0, '.');
        let all = fields_of(settings, name);
        let earlier = fields_of(before, name);
        if settings.contains((key, value)) {
            let i = choose|i: int| 0 <= i < settings.len() && settings[i] == (key, value);
            if i < before.len() {
                assert(before[i] == (key, value));
                let k = choose|k: int| 0 <= k < earlier.len() && earlier[k] == (field, value);
                assert(all[k] == (field, value));
            } else {
                assert(all[all.len() - 1] == (field, value));
            }
        }
        if all.contains((field, value)) {
            let k = choose|k: int| 0 <= k < all.len() && all[k] == (field, value);
            if k < earlier.len() {
                assert(earlier[k] == (field, value));
                let i = choose|i: int| 0 <= i < before.len() && before[i] == (key, value);
                assert(settings[i] == (key, value));
            } else {
                assert(last.0 =~= key);
                assert(settings[settings.len() - 1] == (key, value));
            }
        }
    }
}

proof fn lemma_field_of(fields: Seq<(Seq<char>, Seq<char>)>, name: Seq<char>)
    ensures
        match field_of(fields, name) {
            Some(value) => fields.contains((name, value)),
            None => forall|value: Seq<char>| !#[trigger] fields.contains((name, value)),
        },
    decreases fields.len(),
{
    if fields.len() > 0 {
        let before = fields.drop_last();
        lemma_field_of(before, name);
        if fields.last().0 == name {
            assert(fields[fields.len() - 1] == (name, fields.last().1));
        } else {
            if let Some(value) = field_of(before, name) {
                let i = choose|i: int| 0 <= i < before.len() && before[i] == (name, value);
                assert(fields[i] == (name, value));
            } else {
                assert forall|value: Seq<char>| !#[trigger] fields.contains((name, value)) by {
                    if fields.contains((name, value)) {
                        let i = choose|i: int| 0 <= i < fields.len() && fields[i] == (name, value);
                        assert(before[i] == (name, value));
                        assert(before.contains((name, value)));
                    }
                }
            }
        }
    }
}

proof fn lemma_mask(rule: Seq<char>, column: Seq<char>, written: Seq<char>)
    ensures
        mask_written(rule, column, written) matches Ok(mask) ==> mask_says(written, mask),
{
    text::lemma_split_at_first(written, ':');
    if let Some((kind, rest)) = text::split_at_first(written, ':') {
        assert(written == (kind + seq![':']) + rest);
        if let Ok(MaskView::Partial(keep)) = mask_written(rule, column, written) {
            let t = text::trimmed(rest);
            if t.len() > 0 && t[0] == '+' {
                assert(t.skip(1) =~= t.drop_first());
                numerals::digits_spell_naturals(t.skip(1));
            } else {
                numerals::digits_spell_naturals(t);
            }
        }
    }
}

proof fn lemma_rule_masks(rule: Seq<char>, fields: Seq<(Seq<char>, Seq<char>)>, masks: Seq<(Seq<char>, MaskView)>)
    requires
        rule_masks(rule, fields) == Ok::<Seq<(Seq<char>, MaskView)>, Seq<char>>(masks),
    ensures
        forall|column: Seq<char>, written: Seq<char>| #[trigger]
            has_setting(fields, "mask."@ + column, written) ==> shows(masks, column, written),
        forall|m: int| 0 <= m < masks.len() ==> is_asked_for(fields, "mask."@, #[trigger] masks[m]),
    decreases fields.len(),
{
    if fields.len() > 0 {
        let before = fields.drop_last();
        let last = fields.last();
        let earlier = rule_masks(rule, before)->Ok_0;
        lemma_rule_masks(rule, before, earlier);
        let head = "mask."@;
        let n = head.len() as int;
        if text::begins_with(last.0, head) {
            lemma_mask(rule, last.0.skip(n), last.1);
            assert(head + last.0.skip(n) =~= last.0);
        }
        assert forall|column: Seq<char>, written: Seq<char>| #[trigger]
            has_setting(fields, head + column, written) implies shows(masks, column, written) by {
            let i = choose|i: int| 0 <= i < fields.len() && fields[i] == (head + column, written);
            if i < before.len() {
                assert(before[i] == (head + column, written));
                assert(has_setting(before, head + column, written));
                let m = choose|m: int|
                    0 <= m < earlier.len() && (#[trigger] earlier[m]).0 == column && mask_says(written, earlier[m].1);
                assert(masks[m] == earlier[m]);
            } else {
                assert((head + column).subrange(0, n) =~= head);
                assert((head + column).skip(n) =~= column);
                assert(masks[masks.len() - 1].0 == column);
            }
        }
        assert forall|m: int| 0 <= m < masks.len() implies is_asked_for(fields, head, #[trigger] masks[m]) by {
            let column = masks[m].0;
            if m < earlier.len() {
                assert(masks[m] == earlier[m]);
                let written = choose|written: Seq<char>| #[trigger]
                    has_setting(before, head + column, written) && mask_says(written, earlier[m].1);
                let i = choose|i: int| 0 <= i < before.len() && before[i] == (head + column, written);
                assert(fields[i] == (head + column, written));
                assert(has_setting(fields, head + column, written));
            } else {
                assert(fields[fields.len() - 1] == (head + column, last.1));
                assert(has_setting(fields, head + column, last.1));
            }
        }
    }
}

/// The masks of a rule are those of the settings under its name.
proof fn lemma_masks_spelled(
    settings: Seq<(Seq<char>, Seq<char>)>,
    name: Seq<char>,
    masks: Seq<(Seq<char>, MaskView)>,
)
    requires
        !name.contains('.'),
        rule_masks(name, fields_of(settings, name)) == Ok::<Seq<(Seq<char>, MaskView)>, Seq<char>>(masks),
    ensures
        forall|column: Seq<char>, written: Seq<char>| #[trigger]
            has_setting(settings, name + ".mask."@ + column, written) ==> shows(masks, column, written),
        forall|m: int| 0 <= m < masks.len() ==> is_asked_for(settings, name + ".mask."@, #[trigger] masks[m]),
{
    let fields = fields_of(settings, name);
    lemma_rule_masks(name, fields, masks);
    reveal_strlit(".");
    reveal_strlit("mask.");
    reveal_strlit(".mask.");
    assert forall|column: Seq<char>, written: Seq<char>| #[trigger]
        has_setting(settings, name + ".mask."@ + column, written) implies shows(masks, column, written) by {
        assert(name + "."@ + ("mask."@ + column) =~= name + ".mask."@ + column);
        lemma_fields(settings, name, "mask."@ + column, written);
        assert(has_setting(fields, "mask."@ + column, written));
    }
    assert forall|m: int| 0 <= m < masks.len() implies is_asked_for(settings, name + ".mask."@, #[trigger] masks[m]) by {
        let column = masks[m].0;
        assert(is_asked_for(fields, "mask."@, masks[m]));
        let written = choose|written: Seq<char>| #[trigger]
            has_setting(fields, "mask."@ + column, written) && mask_says(written, masks[m].1);
        assert(name + "."@ + ("mask."@ + column) =~= name + ".mask."@ + column);
        lemma_fields(settings, name, "mask."@ + column, written);
        assert(has_setting(settings, name + ".mask."@ + column, written));
    }
}

/// The settings under a name and a field of it, by their spelling.
proof fn lemma_spelled(settings: Seq<(Seq<char>, Seq<char>)>, name: Seq<char>, field: Seq<char>)
    requires
        !name.contains('.'),
        distinct_keys(settings),
    ensures
        match field_of(fields_of(settings, name), field) {
            Some(value) => has_setting(settings, name + "."@ + field, value) && forall|other: Seq<char>| #[trigger]
                has_setting(settings, name + "."@ + field, other) ==> other == value,
            None => forall|other: Seq<char>| !#[trigger] has_setting(settings, name + "."@ + field, other),
        },
{
    let key = name + "."@ + field;
    lemma_field_of(fields_of(settings, name), field);
    match field_of(fields_of(settings, name), field) {
        Some(value) => {
            lemma_fields(settings, name, field, value);
            assert forall|other: Seq<char>| #[trigger] has_setting(settings, key, other) implies other == value by {
                let i = choose|i: int| 0 <= i < settings.len() && settings[i] == (key, other);
                let j = choose|j: int| 0 <= j < settings.len() && settings[j] == (key, value);
                assert(settings[i].0 == settings[j].0);
            }
        },
        None => {
            assert forall|other: Seq<char>| !#[trigger] has_setting(settings, key, other) by {
                lemma_fields(settings, name, field, other);
            }
        },
    }
}

proof fn lemma_rule_says(tenant: TenantId, settings: Seq<(Seq<char>, Seq<char>)>, name: Seq<char>)
    requires
        !name.contains('.'),
        distinct_keys(settings),
        rule_written(tenant, name, fields_of(settings, name)) is Ok,
    ensures
        rule_says(settings, name, rule_written(tenant, name, fields_of(settings, name))->Ok_0),
        rule_written(tenant, name, fields_of(settings, name))->Ok_0.tenant == tenant,
{
    let fields = fields_of(settings, name);
    let rule = rule_written(tenant, name, fields)->Ok_0;
    let dot = "."@;
    reveal_strlit(".");
    reveal_strlit("role");
    reveal_strlit(".role");
    reveal_strlit("table");
    reveal_strlit(".table");
    reveal_strlit("action");
    reveal_strlit(".action");
    reveal_strlit("effect");
    reveal_strlit(".effect");
    reveal_strlit("where");
    reveal_strlit(".where");
    reveal_strlit("grant");
    reveal_strlit("allow");
    reveal_strlit("deny");
    reveal_strlit("forbid");
    assert(name + dot + "role"@ =~= name + ".role"@);
    assert(name + dot + "table"@ =~= name + ".table"@);
    assert(name + dot + "action"@ =~= name + ".action"@);
    assert(name + dot + "effect"@ =~= name + ".effect"@);
    assert(name + dot + "where"@ =~= name + ".where"@);
    lemma_spelled(settings, name, "role"@);
    lemma_spelled(settings, name, "table"@);
    lemma_spelled(settings, name, "action"@);
    lemma_spelled(settings, name, "effect"@);
    lemma_spelled(settings, name, "where"@);
    lemma_masks_spelled(settings, name, rule.masks);
    let table = field_of(fields, "table"@)->0;
    text::lemma_split_at_first(table, '.');
    assert(dot =~= seq!['.']);
    assert("grant"@[0] == 'g' && "allow"@[0] == 'a' && "deny"@[0] == 'd' && "forbid"@[0] == 'f');
    assert(has_setting(settings, name + ".action"@, field_of(fields, "action"@)->0));
}

/// Where settings read as a policy, there is one rule for each name they are written under, in the order
/// of the names, and each rule says what the settings under its name say.
pub proof fn policies_say_what_is_written(
    settings: Seq<(Seq<char>, Seq<char>)>,
    tenant: TenantId,
    rules: Seq<RuleView>,
) -> (names: Seq<Seq<char>>)
    requires
        reads_as(settings, tenant, Ok(Some(rules))),
        distinct_keys(settings),
    ensures
        names.len() == rules.len(),
        forall|i: int, j: int| 0 <= i < j < names.len() ==> text::precedes(#[trigger] names[i], #[trigger] names[j]),
        forall|i: int|
            0 <= i < settings.len() ==> exists|k: int, field: Seq<char>|
                0 <= k < names.len() && (#[trigger] settings[i]).0 == #[trigger] (names[k] + "."@ + field),
        forall|k: int| 0 <= k < names.len() ==> !(#[trigger] names[k]).contains('.'),
        forall|k: int|
            0 <= k < names.len() ==> rule_says(settings, names[k], #[trigger] rules[k]) && rules[k].tenant == tenant,
{
    let names = choose|names: Seq<Seq<char>>| #[trigger]
        textmap::in_order_of(names, rule_names(settings)) && Ok::<Option<Seq<RuleView>>, Seq<char>>(Some(rules)) == (
        match rules_of(tenant, settings, names) {
            Ok(rules) => Ok::<Option<Seq<RuleView>>, Seq<char>>(Some(rules)),
            Err(why) => Err(why),
        });
    reveal_strlit(".");
    assert("."@ =~= seq!['.']);
    assert forall|i: int| 0 <= i < settings.len() implies exists|k: int, field: Seq<char>|
        0 <= k < names.len() && (#[trigger] settings[i]).0 == #[trigger] (names[k] + "."@ + field) by {
        lemma_has_field(settings, i);
        text::lemma_split_at_first(settings[i].0, '.');
        let (name, field) = text::split_at_first(settings[i].0, '.')->0;
        assert(rule_names(settings)[i] == name);
        assert(names.contains(name));
        let k = choose|k: int| 0 <= k < names.len() && names[k] == name;
        assert(settings[i].0 == names[k] + "."@ + field);
    }
    assert forall|k: int| 0 <= k < names.len() implies !(#[trigger] names[k]).contains('.') by {
        assert(names.contains(names[k]));
        let i = choose|i: int| 0 <= i < rule_names(settings).len() && rule_names(settings)[i] == names[k];
        lemma_has_field(settings, i);
        text::lemma_split_at_first(settings[i].0, '.');
    }
    if names.len() > 0 {
        lemma_rules(tenant, settings, names, 0);
    } else {
        assert(rules.len() == 0);
    }
    assert forall|k: int| 0 <= k < names.len() implies rule_says(settings, names[k], #[trigger] rules[k])
        && rules[k].tenant == tenant by {
        lemma_rules(tenant, settings, names, k);
        lemma_rule_says(tenant, settings, names[k]);
    }
    names
}

proof fn lemma_has_field(settings: Seq<(Seq<char>, Seq<char>)>, i: int)
    requires
        first_fieldless(settings) is None,
        0 <= i < settings.len(),
    ensures
        text::split_at_first(settings[i].0, '.') is Some,
    decreases settings.len(),
{
    if i < settings.len() - 1 {
        lemma_has_field(settings.drop_last(), i);
    }
}

/// A rule's table is named with its schema, both there, and nothing else is a table.
pub proof fn tables_are_named_with_their_schema(rule: Seq<char>, schema: Seq<char>, table: Seq<char>)
    requires
        !schema.contains('.'),
    ensures
        schema.len() > 0 && table.len() > 0 ==> rule_table(rule, schema + seq!['.'] + table) == Ok::<
            (Seq<char>, Seq<char>),
            Seq<char>,
        >((schema, table)),
        schema.len() == 0 || table.len() == 0 ==> rule_table(rule, schema + seq!['.'] + table) is Err,
        rule_table(rule, schema) is Err,
{
    text::lemma_cut_at_first(schema, table, '.');
    text::lemma_uncut(schema, '.');
}

/// There are four actions and two effects, each effect in two words, and any other word is refused.
pub proof fn other_words_are_refused(rule: Seq<char>, word: Seq<char>)
    ensures
        rule_action(rule, word) is Ok <==> word == "read"@ || word == "insert"@ || word == "update"@ || word == "delete"@,
        rule_effect(rule, Some(word)) is Ok <==> word == "grant"@ || word == "allow"@ || word == "deny"@ || word
            == "forbid"@,
        rule_effect(rule, None) == Ok::<Effect, Seq<char>>(Effect::Grant),
{
}

/// A field of a rule is the last that is written under its name, and is missing where none is.
pub proof fn the_last_field_of_a_name_holds(fields: Seq<(Seq<char>, Seq<char>)>, name: Seq<char>)
    ensures
        match field_of(fields, name) {
            Some(value) => exists|i: int|
                0 <= i < fields.len() && #[trigger] fields[i] == (name, value) && forall|k: int|
                    i < k < fields.len() ==> (#[trigger] fields[k]).0 != name,
            None => forall|k: int| 0 <= k < fields.len() ==> (#[trigger] fields[k]).0 != name,
        },
    decreases fields.len(),
{
    if fields.len() > 0 {
        let before = fields.drop_last();
        let n = fields.len() - 1;
        if fields.last().0 == name {
            assert(fields[n] == (name, fields.last().1));
        } else {
            the_last_field_of_a_name_holds(before, name);
            match field_of(before, name) {
                Some(value) => {
                    let i = choose|i: int|
                        0 <= i < before.len() && #[trigger] before[i] == (name, value) && forall|k: int|
                            i < k < before.len() ==> (#[trigger] before[k]).0 != name;
                    assert(fields[i] == (name, value));
                    assert forall|k: int| i < k < fields.len() implies (#[trigger] fields[k]).0 != name by {
                        if k < n {
                            assert(before[k].0 != name);
                        }
                    }
                },
                None => {
                    assert forall|k: int| 0 <= k < fields.len() implies (#[trigger] fields[k]).0 != name by {
                        if k < n {
                            assert(before[k].0 != name);
                        }
                    }
                },
            }
        }
    }
}

/// A mask shows nothing where nothing or `null` is written, a text where one is given, and so many characters
/// where a number is; any other kind of mask is refused.
pub proof fn masks_are_read_as_written(rule: Seq<char>, column: Seq<char>, kind: Seq<char>, rest: Seq<char>, keep: nat)
    requires
        !kind.contains(':'),
        keep <= usize::MAX,
    ensures
        mask_written(rule, column, Seq::empty()) == Ok::<MaskView, Seq<char>>(MaskView::Null),
        text::lower_ascii(kind) == "null"@ ==> mask_written(rule, column, kind) == Ok::<MaskView, Seq<char>>(
            MaskView::Null,
        ),
        text::lower_ascii(kind) == "constant"@ ==> mask_written(rule, column, kind + seq![':'] + rest) == Ok::<
            MaskView,
            Seq<char>,
        >(MaskView::Constant(rest)),
        text::lower_ascii(kind) == "partial"@ ==> mask_written(
            rule,
            column,
            kind + seq![':'] + numerals::decimal(keep),
        ) == Ok::<MaskView, Seq<char>>(MaskView::Partial(keep as int)),
        kind.len() > 0 && text::lower_ascii(kind) != "null"@ ==> mask_written(rule, column, kind) is Err,
        text::lower_ascii(kind) != "constant"@ && text::lower_ascii(kind) != "partial"@ ==> mask_written(
            rule,
            column,
            kind + seq![':'] + rest,
        ) is Err,
{
    text::lemma_uncut(kind, ':');
    text::lemma_uncut(Seq::empty(), ':');
    text::lemma_cut_at_first(kind, rest, ':');
    let written = numerals::decimal(keep);
    text::lemma_cut_at_first(kind, written, ':');
    numerals::naturals_read_back(keep);
    numerals::spelled_naturals_are_read(keep, usize::MAX as int);
    reveal_strlit("constant");
    reveal_strlit("partial");
    assert("constant"@.len() == 8 && "partial"@.len() == 7);
    assert(written.len() > 0);
    assert(numerals::is_digit(written[0]) && numerals::is_digit(written[written.len() - 1]));
    text::lemma_trimmed_already(written);
}

/// A rule is read exactly where it names its table, its action and its role, and where each of these, its effect and
/// its masks can be read; what it lacks is said by name.
pub proof fn whole_rules_are_read(tenant: TenantId, name: Seq<char>, fields: Seq<(Seq<char>, Seq<char>)>)
    ensures
        ({
            let table = field_of(fields, "table"@);
            let action = field_of(fields, "action"@);
            let role = field_of(fields, "role"@);
            let effect = field_of(fields, "effect"@);
            &&& rule_written(tenant, name, fields) is Ok <==> table is Some && action is Some && role is Some
                && rule_table(
                name,
                table->0,
            ) is Ok && rule_action(name, text::lowercase(action->0)) is Ok && (effect is None || rule_effect(
                name,
                Some(text::lowercase(effect->0)),
            ) is Ok) && rule_masks(name, fields) is Ok
            &&& rule_written(tenant, name, fields) matches Ok(rule) ==> rule.tenant == tenant && role == Some(rule.role)
                && rule.predicate == field_of(fields, "where"@)
            &&& table is None ==> rule_written(tenant, name, fields) == Err::<RuleView, Seq<char>>(lacks(name, "table"@))
        }),
{
}

/// The masks of a rule are read exactly where each of them is.
pub proof fn masks_are_read_together(rule: Seq<char>, fields: Seq<(Seq<char>, Seq<char>)>)
    ensures
        rule_masks(rule, fields) is Ok <==> forall|i: int|
            #![trigger fields[i]]
            0 <= i < fields.len() && text::begins_with(fields[i].0, "mask."@) ==> mask_written(
                rule,
                fields[i].0.skip(5),
                fields[i].1,
            ) is Ok,
    decreases fields.len(),
{
    reveal_strlit("mask.");
    if fields.len() > 0 {
        let before = fields.drop_last();
        let n = fields.len() - 1;
        masks_are_read_together(rule, before);
        if rule_masks(rule, fields) is Ok {
            assert forall|i: int| #![trigger fields[i]]
                0 <= i < fields.len() && text::begins_with(fields[i].0, "mask."@) implies mask_written(
                rule,
                fields[i].0.skip(5),
                fields[i].1,
            ) is Ok by {
                if i < n {
                    assert(before[i] == fields[i]);
                }
            }
        } else if rule_masks(rule, before) is Err {
            let i = choose|i: int| #![trigger before[i]]
                0 <= i < before.len() && text::begins_with(before[i].0, "mask."@) && !(mask_written(
                    rule,
                    before[i].0.skip(5),
                    before[i].1,
                ) is Ok);
            assert(fields[i] == before[i]);
        } else {
            assert(fields[n] == fields.last());
        }
    }
}

/// The rules of a policy are read exactly where each of them is, and are those, name by name.
pub proof fn rules_are_read_together(tenant: TenantId, settings: Seq<(Seq<char>, Seq<char>)>, names: Seq<Seq<char>>)
    ensures
        match rules_of(tenant, settings, names) {
            Ok(rules) => rules.len() == names.len() && forall|i: int|
                0 <= i < names.len() ==> rule_written(tenant, #[trigger] names[i], fields_of(settings, names[i])) == Ok::<
                    RuleView,
                    Seq<char>,
                >(rules[i]),
            Err(_) => exists|i: int|
                0 <= i < names.len() && rule_written(tenant, #[trigger] names[i], fields_of(settings, names[i])) is Err,
        },
    decreases names.len(),
{
    if names.len() > 0 {
        let before = names.drop_last();
        let n = names.len() - 1;
        rules_are_read_together(tenant, settings, before);
        match rules_of(tenant, settings, before) {
            Ok(earlier) => {
                match rules_of(tenant, settings, names) {
                    Ok(rules) => {
                        assert forall|i: int| 0 <= i < names.len() implies rule_written(
                            tenant,
                            #[trigger] names[i],
                            fields_of(settings, names[i]),
                        ) == Ok::<RuleView, Seq<char>>(rules[i]) by {
                            if i < n {
                                assert(before[i] == names[i]);
                                assert(rules[i] == earlier[i]);
                            }
                        }
                    },
                    Err(_) => {
                        assert(names[n] == names.last());
                    },
                }
            },
            Err(_) => {
                let i = choose|i: int|
                    0 <= i < before.len() && rule_written(tenant, #[trigger] before[i], fields_of(settings, before[i]))
                        is Err;
                assert(names[i] == before[i]);
            },
        }
    }
}

/// A setting that names no field is found exactly where one has no dot, and it is the first.
pub proof fn settings_without_a_field_are_found(settings: Seq<(Seq<char>, Seq<char>)>)
    ensures
        match first_fieldless(settings) {
            Some(key) => exists|i: int|
                #![trigger settings[i]]
                lists::first_at(settings, i, |s: (Seq<char>, Seq<char>)| !s.0.contains('.')) && key == settings[i].0,
            None => lists::nowhere(settings, |s: (Seq<char>, Seq<char>)| !s.0.contains('.')),
        },
    decreases settings.len(),
{
    let p = |s: (Seq<char>, Seq<char>)| !s.0.contains('.');
    if settings.len() > 0 {
        let before = settings.drop_last();
        let n = settings.len() - 1;
        settings_without_a_field_are_found(before);
        text::lemma_split_at_first(settings.last().0, '.');
        if let Some((rule, field)) = text::split_at_first(settings.last().0, '.') {
            assert(settings.last().0[rule.len() as int] == '.');
        }
        match first_fieldless(before) {
            Some(key) => {
                let i = choose|i: int| #![trigger before[i]] lists::first_at(before, i, p) && key == before[i].0;
                assert(settings[i] == before[i]);
                assert forall|k: int| 0 <= k < i implies !p(#[trigger] settings[k]) by {
                    assert(!p(before[k]));
                }
                assert(lists::first_at(settings, i, p));
            },
            None => {
                assert forall|k: int| 0 <= k < n implies !p(#[trigger] settings[k]) by {
                    assert(!p(before[k]));
                }
                if first_fieldless(settings) is Some {
                    assert(lists::first_at(settings, n, p));
                    assert(settings[n] == settings.last());
                }
            },
        }
    }
}

} // verus!
