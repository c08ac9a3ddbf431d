//! The style policy: the accepted subject verbs, the keyword indicators
//! that pick a verb for a generated message, and the template fragments
//! of the generated message body.
//!
//! The original keyed verbs and indicators by hash maps; here each is an
//! association list in first-inserted order, which makes verb selection
//! and subject choice deterministic.

use vstd::prelude::*;

verus! {

pub struct MessageTemplate {
    pub references_section: String,
    pub testing_section: String,
    pub dependencies_section: String,
    pub changes_section: String,
    pub breaking_section: String,
}

pub struct Config {
    /// Accepted subject verbs, each with a short description.
    pub standard_verbs: Vec<(String, String)>,
    /// Verb category to the keywords that indicate it.
    pub indicators: Vec<(String, Vec<String>)>,
    /// Verb category to the canonical verb for it.
    pub verb_mapping: Vec<(String, String)>,
    pub message_template: MessageTemplate,
}

impl Config {
    /// The accepted verbs, in listed order.
    pub open spec fn verb_keys(&self) -> Seq<Seq<char>> {
        self.standard_verbs.deep_view().map_values(|p: (Seq<char>, Seq<char>)| p.0)
    }
}

pub open spec fn references_text() -> Seq<char> {
    "# References [Required]\n# Link to related tickets, docs, or discussions\nCloses #\nRelates to #\nSee also: "@
}

pub open spec fn testing_text() -> Seq<char> {
    "# Testing Instructions [Optional]\n# Describe how to test these changes\n1. Steps to test\n2. Expected outcomes\n3. Edge cases to verify"@
}

pub open spec fn dependencies_text() -> Seq<char> {
    "# Dependencies [Optional]\n# List any prerequisite changes or dependencies\n- [ ] Database migrations\n- [ ] Configuration updates\n- [ ] External service changes"@
}

pub open spec fn changes_header_text() -> Seq<char> {
    "# Changes Overview [Required]\n# Briefly describe the purpose of these changes"@
}

pub open spec fn breaking_header_text() -> Seq<char> {
    "# Breaking Changes [Required if any]\n# List any backward-incompatible changes and migration steps"@
}

impl Default for Config {
    /// The built-in policy.
    fn default() -> (c: Config)
        ensures
            c.standard_verbs.deep_view() == seq![
                ("Add"@, "Create a capability, e.g. feature, test, dependency"@),
                ("Cut"@, "Remove a capability, e.g. feature, test, dependency"@),
                ("Fix"@, "Fix an issue, e.g. bug, typo, error, misstatement"@),
            ],
            c.indicators.deep_view() == seq![("fix"@, seq!["fix"@, "bug"@, "issue"@])],
            c.verb_mapping.deep_view() == seq![("fix"@, "Fix"@)],
            c.message_template.references_section@ == references_text(),
            c.message_template.testing_section@ == testing_text(),
            c.message_template.dependencies_section@ == dependencies_text(),
            c.message_template.changes_section@ == changes_header_text(),
            c.message_template.breaking_section@ == breaking_header_text(),
    {
        let mut standard_verbs: Vec<(String, String)> = Vec::new();
        standard_verbs.push(
            (
                String::from_str("Add"),
                String::from_str("Create a capability, e.g. feature, test, dependency"),
            ),
        );
        standard_verbs.push(
            (
                String::from_str("Cut"),
                String::from_str("Remove a capability, e.g. feature, test, dependency"),
            ),
        );
        standard_verbs.push(
            (
                String::from_str("Fix"),
                String::from_str("Fix an issue, e.g. bug, typo, error, misstatement"),
            ),
        );

        let mut fix_words: Vec<String> = Vec::new();
        fix_words.push(String::from_str("fix"));
        fix_words.push(String::from_str("bug"));
        fix_words.push(String::from_str("issue"));
        let mut indicators: Vec<(String, Vec<String>)> = Vec::new();
        indicators.push((String::from_str("fix"), fix_words));

        let mut verb_mapping: Vec<(String, String)> = Vec::new();
        verb_mapping.push((String::from_str("fix"), String::from_str("Fix")));

        let message_template = MessageTemplate {
            references_section: String::from_str(
                "# References [Required]\n# Link to related tickets, docs, or discussions\nCloses #\nRelates to #\nSee also: ",
            ),
            testing_section: String::from_str(
                "# Testing Instructions [Optional]\n# Describe how to test these changes\n1. Steps to test\n2. Expected outcomes\n3. Edge cases to verify",
            ),
            dependencies_section: String::from_str(
                "# Dependencies [Optional]\n# List any prerequisite changes or dependencies\n- [ ] Database migrations\n- [ ] Configuration updates\n- [ ] External service changes",
            ),
            changes_section: String::from_str(
                "# Changes Overview [Required]\n# Briefly describe the purpose of these changes",
            ),
            breaking_section: String::from_str(
                "# Breaking Changes [Required if any]\n# List any backward-incompatible changes and migration steps",
            ),
        };

        let c = Config { standard_verbs, indicators, verb_mapping, message_template };
        proof {
            assert(c.standard_verbs.deep_view() =~= seq![
                ("Add"@, "Create a capability, e.g. feature, test, dependency"@),
                ("Cut"@, "Remove a capability, e.g. feature, test, dependency"@),
                ("Fix"@, "Fix an issue, e.g. bug, typo, error, misstatement"@),
            ]);
            assert(c.indicators.deep_view() =~~= seq![("fix"@, seq!["fix"@, "bug"@, "issue"@])]);
            assert(c.verb_mapping.deep_view() =~= seq![("fix"@, "Fix"@)]);
        }
        c
    }
}

} // verus!
