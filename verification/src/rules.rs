//! The conversion rule table: the fixed registry of
//! (interface path, method name) pairs the pass tracks, split into the
//! set matched against method-call syntax and the set of static
//! factories matched against qualified-call syntax.

use vstd::prelude::*;
use vstd::string::StringExecFns;

verus! {

/// One tracked conversion: a method of the named interface whose
/// output can be identical to its input.
pub struct Rule {
    /// The full path of the interface declaring the conversion.
    pub path: Vec<String>,
    /// The conversion method's name.
    pub method: String,
}

/// The mathematical value of a [`Rule`].
pub struct RuleView {
    pub path: Seq<Seq<char>>,
    pub method: Seq<char>,
}

impl DeepView for Rule {
    type V = RuleView;

    open spec fn deep_view(&self) -> RuleView {
        RuleView { path: self.path.deep_view(), method: self.method@ }
    }
}

/// The tracked conversions matched against method-call syntax.
pub open spec fn method_rule_views() -> Seq<RuleView> {
    seq![
        RuleView { path: seq!["core"@, "convert"@, "Into"@], method: "into"@ },
        RuleView { path: seq!["core"@, "convert"@, "AsRef"@], method: "as_ref"@ },
        RuleView { path: seq!["core"@, "convert"@, "AsMut"@], method: "as_mut"@ },
        RuleView { path: seq!["core"@, "borrow"@, "Borrow"@], method: "borrow"@ },
        RuleView { path: seq!["core"@, "borrow"@, "BorrowMut"@], method: "borrow_mut"@ },
        RuleView { path: seq!["core"@, "iter"@, "Iterator"@], method: "by_ref"@ },
    ]
}

/// The tracked static-factory conversions.
pub open spec fn factory_rule_views() -> Seq<RuleView> {
    seq![RuleView { path: seq!["core"@, "convert"@, "From"@], method: "from"@ }]
}

/// The rules checked against the qualified-call shape: the factory
/// rules chained with the whole method-call rule set, since both can
/// appear as explicit qualified calls.
pub open spec fn qualified_rule_views() -> Seq<RuleView> {
    factory_rule_views() + method_rule_views()
}

/// Builds a three-segment interface path.
fn path3(a: &str, b: &str, c: &str) -> (r: Vec<String>)
    ensures
        r.deep_view() == seq![a@, b@, c@],
{
    let mut r: Vec<String> = Vec::new();
    r.push(String::from_str(a));
    r.push(String::from_str(b));
    r.push(String::from_str(c));
    proof {
        assert(r.deep_view() =~= seq![a@, b@, c@]);
    }
    r
}

/// The method-call rule table, as executable data.
pub fn method_rules() -> (r: Vec<Rule>)
    ensures
        r.deep_view() == method_rule_views(),
{
    let mut r: Vec<Rule> = Vec::new();
    r.push(Rule { path: path3("core", "convert", "Into"), method: String::from_str("into") });
    r.push(Rule { path: path3("core", "convert", "AsRef"), method: String::from_str("as_ref") });
    r.push(Rule { path: path3("core", "convert", "AsMut"), method: String::from_str("as_mut") });
    r.push(Rule { path: path3("core", "borrow", "Borrow"), method: String::from_str("borrow") });
    r.push(
        Rule { path: path3("core", "borrow", "BorrowMut"), method: String::from_str("borrow_mut") },
    );
    r.push(Rule { path: path3("core", "iter", "Iterator"), method: String::from_str("by_ref") });
    proof {
        assert(r.deep_view() =~~= method_rule_views());
    }
    r
}

/// The qualified-call rule table, as executable data: the static
/// factories followed by the method-call rules.
pub fn qualified_rules() -> (r: Vec<Rule>)
    ensures
        r.deep_view() == qualified_rule_views(),
{
    let mut r: Vec<Rule> = Vec::new();
    r.push(Rule { path: path3("core", "convert", "From"), method: String::from_str("from") });
    r.push(Rule { path: path3("core", "convert", "Into"), method: String::from_str("into") });
    r.push(Rule { path: path3("core", "convert", "AsRef"), method: String::from_str("as_ref") });
    r.push(Rule { path: path3("core", "convert", "AsMut"), method: String::from_str("as_mut") });
    r.push(Rule { path: path3("core", "borrow", "Borrow"), method: String::from_str("borrow") });
    r.push(
        Rule { path: path3("core", "borrow", "BorrowMut"), method: String::from_str("borrow_mut") },
    );
    r.push(Rule { path: path3("core", "iter", "Iterator"), method: String::from_str("by_ref") });
    proof {
        assert(r.deep_view() =~~= qualified_rule_views());
    }
    r
}

} // verus!
