//! Per-rule lint settings from the `[lint.rules]` table of `pata.toml`.

use vstd::prelude::*;
use crate::commands::opt_view;
use crate::text::{chars_eq, chars_of, str_is};
use crate::toml_doc::{
    entries_view, get, get_str, get_string, get_value, lemma_entries_view, parse_toml, toml_parse, toml_view,
    TomlValue, TomlValueView,
};

verus! {

/// A rule option's value, as far as the rules read it: an integer, or anything else.
#[derive(Clone, Debug, PartialEq, Eq, Structural)]
pub enum OptionValue {
    Integer(i64),
    Other,
}

/// One rule's settings: severity (`error`, `warning`, `info` or `ignore`) and options.
#[derive(Clone, Debug)]
pub struct RuleConfig {
    pub severity: Option<String>,
    pub options: Option<Vec<(String, OptionValue)>>,
}

/// Settings per rule code (each code once).
#[derive(Clone, Debug)]
pub struct LintConfig {
    pub rules: Option<Vec<(String, RuleConfig)>>,
}

/// The settings of the first entry for `code`.
pub open spec fn rule_for(rules: Seq<(String, RuleConfig)>, code: Seq<char>, i: int) -> Option<RuleConfig>
    decreases rules.len() - i,
{
    if i < 0 || i >= rules.len() {
        None
    } else if rules[i].0@ == code {
        Some(rules[i].1)
    } else {
        rule_for(rules, code, i + 1)
    }
}

/// The value of the first option named `key`.
pub open spec fn option_for(opts: Seq<(String, OptionValue)>, key: Seq<char>, i: int) -> Option<OptionValue>
    decreases opts.len() - i,
{
    if i < 0 || i >= opts.len() {
        None
    } else if opts[i].0@ == key {
        Some(opts[i].1)
    } else {
        option_for(opts, key, i + 1)
    }
}

/// The severity configured for `code`, `warning` when none is.
pub open spec fn severity_spec(c: LintConfig, code: Seq<char>) -> Seq<char> {
    match c.rules {
        Some(rules) => match rule_for(rules@, code, 0) {
            Some(rc) => match rc.severity {
                Some(s) => s@,
                None => "warning"@,
            },
            None => "warning"@,
        },
        None => "warning"@,
    }
}

/// The option `key` configured for `code`.
pub open spec fn option_spec(c: LintConfig, code: Seq<char>, key: Seq<char>) -> Option<OptionValue> {
    match c.rules {
        Some(rules) => match rule_for(rules@, code, 0) {
            Some(rc) => match rc.options {
                Some(opts) => option_for(opts@, key, 0),
                None => None,
            },
            None => None,
        },
        None => None,
    }
}

/// Whether a rule is enabled: its severity is not `ignore`.
pub open spec fn enabled_spec(c: LintConfig, code: Seq<char>) -> bool {
    severity_spec(c, code) != "ignore"@
}

/// A rule's settings as plain values: its severity and its options.
pub type RuleView = (Option<Seq<char>>, Option<Seq<(Seq<char>, OptionValue)>>);

/// Options as plain values.
pub open spec fn options_view(o: Option<Vec<(String, OptionValue)>>) -> Option<Seq<(Seq<char>, OptionValue)>> {
    match o {
        Some(v) => Some(v@.map_values(|e: (String, OptionValue)| (e.0@, e.1))),
        None => None,
    }
}

/// The rules of a configuration as plain values, in order.
pub open spec fn rules_view(c: LintConfig) -> Option<Seq<(Seq<char>, RuleView)>> {
    match c.rules {
        Some(r) => Some(r@.map_values(
            |e: (String, RuleConfig)| (e.0@, (opt_view(e.1.severity), options_view(e.1.options))),
        )),
        None => None,
    }
}

/// An option as the rules read it: an integer, or anything else.
pub open spec fn option_value_spec(v: TomlValueView) -> OptionValue {
    match v {
        TomlValueView::Integer(i) => OptionValue::Integer(i as i64),
        _ => OptionValue::Other,
    }
}

/// The settings a `[lint.rules.<code>]` value gives: its `severity` string and its `options`
/// table.
pub open spec fn rule_spec(v: TomlValueView) -> RuleView {
    (
        get_str(Some(v), "severity"@),
        match get(Some(v), "options"@) {
            Some(TomlValueView::Table(t)) => Some(
                t.map_values(|e: (Seq<char>, TomlValueView)| (e.0, option_value_spec(e.1))),
            ),
            _ => None,
        },
    )
}

/// The rules a parsed `pata.toml` configures: one per entry of its `[lint.rules]` table, in
/// the table's order; none when there is no such table.
pub open spec fn lint_rules_spec(doc: TomlValueView) -> Option<Seq<(Seq<char>, RuleView)>> {
    match get(get(Some(doc), "lint"@), "rules"@) {
        Some(TomlValueView::Table(t)) => Some(
            t.map_values(|e: (Seq<char>, TomlValueView)| (e.0, rule_spec(e.1))),
        ),
        _ => None,
    }
}

fn option_value_of(v: &TomlValue) -> (r: OptionValue)
    ensures
        r == option_value_spec(toml_view(*v)),
{
    match v {
        TomlValue::Integer(i) => OptionValue::Integer(*i),
        _ => OptionValue::Other,
    }
}

fn options_of(t: &Vec<(String, TomlValue)>) -> (r: Vec<(String, OptionValue)>)
    ensures
        r@.map_values(|e: (String, OptionValue)| (e.0@, e.1)) == entries_view(t@).map_values(
            |e: (Seq<char>, TomlValueView)| (e.0, option_value_spec(e.1)),
        ),
{
    proof {
        lemma_entries_view(t@);
    }
    let ghost et = entries_view(t@);
    let mut out: Vec<(String, OptionValue)> = Vec::new();
    let mut i: usize = 0;
    while i < t.len()
        invariant
            i <= t.len(),
            et == entries_view(t@),
            et.len() == t@.len(),
            forall|j: int| 0 <= j < t@.len() ==> #[trigger] et[j] == (t@[j].0@, toml_view(t@[j].1)),
            out@.len() == i,
            forall|j: int| 0 <= j < i ==> (#[trigger] out@[j]).0@ == et[j].0
                && out@[j].1 == option_value_spec(et[j].1),
        decreases t.len() - i,
    {
        let o = option_value_of(&t[i].1);
        out.push((t[i].0.clone(), o));
        i = i + 1;
    }
    assert(out@.map_values(|e: (String, OptionValue)| (e.0@, e.1)) =~= et.map_values(
        |e: (Seq<char>, TomlValueView)| (e.0, option_value_spec(e.1)),
    ));
    out
}

fn rule_of(v: &TomlValue) -> (r: RuleConfig)
    ensures
        (opt_view(r.severity), options_view(r.options)) == rule_spec(toml_view(*v)),
{
    let severity = get_string(Some(v), "severity");
    let options = match get_value(Some(v), "options") {
        Some(TomlValue::Table(t)) => Some(options_of(t)),
        _ => None,
    };
    RuleConfig { severity, options }
}

/// The lint settings of a parsed `pata.toml`.
pub fn lint_config_of(doc: &TomlValue) -> (r: LintConfig)
    ensures
        rules_view(r) == lint_rules_spec(toml_view(*doc)),
{
    match get_value(get_value(Some(doc), "lint"), "rules") {
        Some(TomlValue::Table(t)) => {
            proof {
                lemma_entries_view(t@);
            }
            let ghost et = entries_view(t@);
            let mut rules: Vec<(String, RuleConfig)> = Vec::new();
            let mut i: usize = 0;
            while i < t.len()
                invariant
                    i <= t.len(),
                    et == entries_view(t@),
                    et.len() == t@.len(),
                    forall|j: int| 0 <= j < t@.len() ==> #[trigger] et[j] == (t@[j].0@, toml_view(t@[j].1)),
                    rules@.len() == i,
                    forall|j: int| 0 <= j < i ==> (#[trigger] rules@[j]).0@ == et[j].0
                        && (opt_view(rules@[j].1.severity), options_view(rules@[j].1.options))
                        == rule_spec(et[j].1),
                decreases t.len() - i,
            {
                let rc = rule_of(&t[i].1);
                rules.push((t[i].0.clone(), rc));
                i = i + 1;
            }
            let r = LintConfig { rules: Some(rules) };
            assert(rules_view(r)->0 =~= et.map_values(
                |e: (Seq<char>, TomlValueView)| (e.0, rule_spec(e.1)),
            ));
            r
        },
        _ => LintConfig { rules: None },
    }
}

/// The lint settings of the text of a `pata.toml`: those of its `[lint.rules]` table, none
/// when the text is not TOML.
pub fn parse_lint_config(content: &str) -> (r: LintConfig)
    ensures
        match toml_parse(content@) {
            Ok(doc) => rules_view(r) == lint_rules_spec(doc),
            Err(_) => r.rules is None,
        },
{
    match parse_toml(content) {
        Ok(doc) => lint_config_of(&doc),
        Err(_) => LintConfig::new(),
    }
}

impl LintConfig {
    /// No rule configured.
    pub fn new() -> (r: LintConfig)
        ensures
            r.rules is None,
    {
        LintConfig { rules: None }
    }

    fn rule(&self, code: &str) -> (r: Option<&RuleConfig>)
        ensures
            match self.rules {
                Some(rules) => match rule_for(rules@, code@, 0) {
                    Some(rc) => r == Some(&rc),
                    None => r is None,
                },
                None => r is None,
            },
    {
        match &self.rules {
            None => None,
            Some(rules) => {
                let key = chars_of(code);
                let mut i: usize = 0;
                while i < rules.len()
                    invariant
                        i <= rules.len(),
                        key@ == code@,
                        self.rules == Some(*rules),
                        rule_for(rules@, code@, 0) == rule_for(rules@, code@, i as int),
                    decreases rules.len() - i,
                {
                    if chars_eq(chars_of(rules[i].0.as_str()).as_slice(), key.as_slice()) {
                        assert(rules@[i as int].0@ == code@);
                        assert(rule_for(rules@, code@, i as int) == Some(rules@[i as int].1));
                        return Some(&rules[i].1);
                    }
                    i = i + 1;
                }
                None
            },
        }
    }

    /// The severity of a rule (`warning` unless configured).
    pub fn severity(&self, rule_code: &str) -> (r: &str)
        ensures
            r@ == severity_spec(*self, rule_code@),
    {
        match self.rule(rule_code) {
            Some(rc) => match &rc.severity {
                Some(s) => s.as_str(),
                None => "warning",
            },
            None => "warning",
        }
    }

    /// Whether a rule is enabled (not `ignore`).
    pub fn is_enabled(&self, rule_code: &str) -> (r: bool)
        ensures
            r == enabled_spec(*self, rule_code@),
    {
        !str_is(self.severity(rule_code), "ignore")
    }

    /// A rule's option.
    pub fn option(&self, rule_code: &str, key: &str) -> (r: Option<&OptionValue>)
        ensures
            match option_spec(*self, rule_code@, key@) {
                Some(v) => r == Some(&v),
                None => r is None,
            },
    {
        match self.rule(rule_code) {
            None => None,
            Some(rc) => match &rc.options {
                None => None,
                Some(opts) => {
                    let k = chars_of(key);
                    let mut i: usize = 0;
                    while i < opts.len()
                        invariant
                            i <= opts.len(),
                            k@ == key@,
                            option_spec(*self, rule_code@, key@) == option_for(opts@, key@, 0),
                            option_for(opts@, key@, 0) == option_for(opts@, key@, i as int),
                        decreases opts.len() - i,
                    {
                        if chars_eq(chars_of(opts[i].0.as_str()).as_slice(), k.as_slice()) {
                            assert(opts@[i as int].0@ == key@);
                            assert(option_for(opts@, key@, i as int) == Some(opts@[i as int].1));
                            return Some(&opts[i].1);
                        }
                        i = i + 1;
                    }
                    None
                },
            },
        }
    }

    /// A rule's option when it is an integer.
    pub fn option_int(&self, rule_code: &str, key: &str) -> (r: Option<i64>)
        ensures
            r == match option_spec(*self, rule_code@, key@) {
                Some(OptionValue::Integer(n)) => Some(n),
                _ => None,
            },
    {
        match self.option(rule_code, key) {
            Some(OptionValue::Integer(n)) => Some(*n),
            _ => None,
        }
    }
}

impl Default for LintConfig {
    fn default() -> (r: Self)
        ensures
            r.rules is None,
    {
        LintConfig::new()
    }
}

} // verus!
