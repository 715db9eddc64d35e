//! Prompt makers: they turn a user's request into a professional prompt for a
//! generation kind, enriched with the project's and the vaults' context.

use vstd::prelude::*;
use crate::dsl::{opt_view, string_views};
use crate::generate::{copy_opt, kind_name, GenerationKind};
use crate::job::{GenerationOptions, ProfessionalPrompt, PromptContextView, PromptTechnical, opt_context_view};
use crate::refs::AetherError;
use crate::text::{owned, push_str};
use crate::vault::{PromptContext, VaultContextView, VaultPromptContext, contexts_view};

verus! {

/// What a prompt maker knows besides the request.
#[derive(Debug, Clone)]
pub struct PromptMakerContext {
    pub project_summary: Option<String>,
    pub locale: Option<String>,
    pub style_hint: Option<String>,
    pub vault_context: Option<PromptContext>,
    pub target_model_id: Option<String>,
    pub explicit_options: GenerationOptions,
}

/// Makes the professional prompt for a request. Each maker says which answers it
/// may give (`r` being one of them).
pub trait PromptMaker {
    /// `r` is an answer the maker may give for `user_request` of kind `kind` in `context`.
    spec fn prompt_answers(&self, kind: GenerationKind, user_request: Seq<char>, context: PromptMakerContext, r: Result<ProfessionalPrompt, AetherError>) -> bool;

    /// The prompt for `user_request` of kind `kind`, in `context`.
    fn make_prompt(&self, kind: GenerationKind, user_request: &str, context: &PromptMakerContext) -> (r: Result<ProfessionalPrompt, AetherError>)
        ensures
            self.prompt_answers(kind, user_request@, *context, r);
}

/// The strings of `s` joined with `sep` between them (`[String]::join`).
pub open spec fn join(s: Seq<Seq<char>>, sep: Seq<char>) -> Seq<char>
    decreases s.len(),
{
    if s.len() == 0 {
        Seq::empty()
    } else if s.len() == 1 {
        s[0]
    } else {
        join(s.drop_last(), sep) + sep + s.last()
    }
}

/// The strings of `v` joined with `sep`.
pub fn join_strings(v: &Vec<String>, sep: &str) -> (r: String)
    ensures
        r@ == join(string_views(v@), sep@),
{
    let ghost sv = string_views(v@);
    let mut r = String::new();
    let mut i: usize = 0;
    assert(sv.subrange(0, 0) =~= Seq::<Seq<char>>::empty());
    while i < v.len()
        invariant
            i <= v.len(),
            sv == string_views(v@),
            r@ == join(sv.subrange(0, i as int), sep@),
        decreases v.len() - i,
    {
        assert(sv.subrange(0, i + 1).drop_last() =~= sv.subrange(0, i as int));
        assert(sv[i as int] == v@[i as int]@);
        if i > 0 {
            push_str(&mut r, sep);
        } else {
            assert(r@ =~= Seq::<char>::empty());
        }
        push_str(&mut r, v[i].as_str());
        i = i + 1;
    }
    assert(sv.subrange(0, i as int) =~= sv);
    r
}

/// The rules of all vault contexts, in order.
pub open spec fn all_rules(s: Seq<VaultContextView>) -> Seq<Seq<char>>
    decreases s.len(),
{
    if s.len() == 0 { Seq::empty() } else { all_rules(s.drop_last()) + s.last().rules }
}

/// The prompt snippets of all vault contexts, in order.
pub open spec fn all_snippets(s: Seq<VaultContextView>) -> Seq<Seq<char>>
    decreases s.len(),
{
    if s.len() == 0 { Seq::empty() } else { all_snippets(s.drop_last()) + s.last().snippets }
}

/// The negative prompts of all vault contexts, in order.
pub open spec fn all_negatives(s: Seq<VaultContextView>) -> Seq<Seq<char>>
    decreases s.len(),
{
    if s.len() == 0 { Seq::empty() } else { all_negatives(s.drop_last()) + s.last().negatives }
}

/// The vault contexts of an optional prompt context.
pub open spec fn vaults_of(c: Option<PromptContextView>) -> Seq<VaultContextView> {
    match c {
        Some(x) => x.vaults,
        None => Seq::empty(),
    }
}

/// `" [label: items joined by sep]"`, or nothing when there are no items.
pub open spec fn bracket(label: Seq<char>, items: Seq<Seq<char>>) -> Seq<char> {
    if items.len() == 0 { Seq::empty() } else { " ["@ + label + ": "@ + join(items, ". "@) + "]"@ }
}

/// The enriched prompt: the mode, the request, then the style, the project
/// summary, the vault rules and the vault snippets, each when there is one.
pub open spec fn enriched_spec(
    kind: GenerationKind,
    req: Seq<char>,
    style: Option<Seq<char>>,
    summary: Option<Seq<char>>,
    vaults: Seq<VaultContextView>,
) -> Seq<char> {
    "[AI Generation Mode: "@ + kind_name(kind) + "] "@ + req
        + match style { Some(s) => " (Style: "@ + s + ")"@, None => Seq::empty() }
        + match summary { Some(s) => " [Project Summary: "@ + s + "]"@, None => Seq::empty() }
        + bracket("Rules"@, all_rules(vaults))
        + bracket("Snippets"@, all_snippets(vaults))
}

/// The negative prompt: a fixed quality clause, then the vaults' negative prompts.
pub open spec fn negative_spec(vaults: Seq<VaultContextView>) -> Seq<char> {
    join(seq!["low quality, blurry, distorted"@] + all_negatives(vaults), ", "@)
}

/// `p` is the rule-based prompt for `req` of kind `kind` in context `ctx`.
pub open spec fn rule_based_prompt(p: ProfessionalPrompt, kind: GenerationKind, req: Seq<char>, ctx: PromptMakerContext) -> bool {
    let vaults = vaults_of(opt_context_view(ctx.vault_context));
    &&& p.original_request@ == req
    &&& p.professional_prompt@ == enriched_spec(kind, req, opt_view(ctx.style_hint), opt_view(ctx.project_summary), vaults)
    &&& opt_view(p.negative_prompt) == Some(negative_spec(vaults))
    &&& opt_view(p.locale) == opt_view(ctx.locale)
    &&& opt_view(p.style) == opt_view(ctx.style_hint)
    &&& p.technical.generation_kind == Some(kind)
    &&& opt_view(p.technical.enriched_by) == Some("RuleBasedPromptMaker"@)
    &&& p.technical.api_options is None
    &&& p.technical.clarifications is None
    &&& p.technical.extra@.len() == 0
}

fn push_each(out: &mut Vec<String>, items: &Vec<String>)
    ensures
        string_views(final(out)@) == string_views(old(out)@) + string_views(items@),
{
    let ghost start = string_views(out@);
    let mut i: usize = 0;
    while i < items.len()
        invariant
            i <= items.len(),
            string_views(out@) == start + string_views(items@).subrange(0, i as int),
        decreases items.len() - i,
    {
        let ghost before = out@;
        let c = items[i].clone();
        out.push(c);
        assert(string_views(out@) =~= string_views(before).push(c@));
        assert(string_views(out@) =~= start + string_views(items@).subrange(0, i + 1));
        i = i + 1;
    }
    assert(string_views(items@).subrange(0, i as int) =~= string_views(items@));
}

fn gather(vcs: &Vec<VaultPromptContext>) -> (r: (Vec<String>, Vec<String>, Vec<String>))
    ensures
        string_views(r.0@) == all_rules(contexts_view(vcs@)),
        string_views(r.1@) == all_snippets(contexts_view(vcs@)),
        string_views(r.2@) == all_negatives(contexts_view(vcs@)),
{
    let ghost cv = contexts_view(vcs@);
    let mut rules: Vec<String> = Vec::new();
    let mut snippets: Vec<String> = Vec::new();
    let mut negatives: Vec<String> = Vec::new();
    let mut i: usize = 0;
    assert(cv.subrange(0, 0) =~= Seq::<VaultContextView>::empty());
    assert(string_views(rules@) =~= Seq::<Seq<char>>::empty());
    assert(string_views(snippets@) =~= Seq::<Seq<char>>::empty());
    assert(string_views(negatives@) =~= Seq::<Seq<char>>::empty());
    while i < vcs.len()
        invariant
            i <= vcs.len(),
            cv == contexts_view(vcs@),
            string_views(rules@) == all_rules(cv.subrange(0, i as int)),
            string_views(snippets@) == all_snippets(cv.subrange(0, i as int)),
            string_views(negatives@) == all_negatives(cv.subrange(0, i as int)),
        decreases vcs.len() - i,
    {
        assert(cv.subrange(0, i + 1).drop_last() =~= cv.subrange(0, i as int));
        assert(cv[i as int] == vcs@[i as int]@);
        push_each(&mut rules, &vcs[i].rules);
        push_each(&mut snippets, &vcs[i].prompt_snippets);
        push_each(&mut negatives, &vcs[i].negative_prompts);
        i = i + 1;
    }
    assert(cv.subrange(0, i as int) =~= cv);
    (rules, snippets, negatives)
}

fn push_bracket(s: &mut String, label: &str, items: &Vec<String>)
    ensures
        final(s)@ == old(s)@ + bracket(label@, string_views(items@)),
{
    if items.len() > 0 {
        push_str(s, " [");
        push_str(s, label);
        push_str(s, ": ");
        let j = join_strings(items, ". ");
        push_str(s, j.as_str());
        push_str(s, "]");
    } else {
        assert(old(s)@ + bracket(label@, string_views(items@)) =~= old(s)@);
    }
}

/// The prompt maker that enriches the request by fixed rules.
#[derive(Debug, Clone, Copy)]
pub struct RuleBasedPromptMaker;

impl RuleBasedPromptMaker {
    /// The rule-based prompt for `user_request` of kind `kind` in `context`.
    pub fn enrich(kind: GenerationKind, user_request: &str, context: &PromptMakerContext) -> (p: ProfessionalPrompt)
        ensures
            rule_based_prompt(p, kind, user_request@, *context),
    {
        let mut enriched = owned("[AI Generation Mode: ");
        let name = kind.name();
        push_str(&mut enriched, name.as_str());
        push_str(&mut enriched, "] ");
        push_str(&mut enriched, user_request);
        let ghost e0 = enriched@;
        match &context.style_hint {
            Some(style) => {
                push_str(&mut enriched, " (Style: ");
                push_str(&mut enriched, style.as_str());
                push_str(&mut enriched, ")");
            },
            None => {},
        }
        let ghost e1 = enriched@;
        assert(e1 =~= e0 + match opt_view(context.style_hint) {
            Some(s) => " (Style: "@ + s + ")"@,
            None => Seq::<char>::empty(),
        });
        match &context.project_summary {
            Some(summary) => {
                push_str(&mut enriched, " [Project Summary: ");
                push_str(&mut enriched, summary.as_str());
                push_str(&mut enriched, "]");
            },
            None => {},
        }
        let empty: Vec<VaultPromptContext> = Vec::new();
        let (rules, snippets, negatives) = match &context.vault_context {
            Some(vc) => gather(&vc.vault_context),
            None => {
                assert(contexts_view(empty@) =~= Seq::<VaultContextView>::empty());
                gather(&empty)
            },
        };
        let ghost e2 = enriched@;
        assert(e2 =~= e1 + match opt_view(context.project_summary) {
            Some(s) => " [Project Summary: "@ + s + "]"@,
            None => Seq::<char>::empty(),
        });
        push_bracket(&mut enriched, "Rules", &rules);
        push_bracket(&mut enriched, "Snippets", &snippets);
        assert(enriched@ =~= enriched_spec(
            kind,
            user_request@,
            opt_view(context.style_hint),
            opt_view(context.project_summary),
            vaults_of(opt_context_view(context.vault_context)),
        ));
        let mut neg_list: Vec<String> = Vec::new();
        neg_list.push(owned("low quality, blurry, distorted"));
        assert(string_views(neg_list@) =~= seq!["low quality, blurry, distorted"@]);
        push_each(&mut neg_list, &negatives);
        let negative = join_strings(&neg_list, ", ");
        let extra: Vec<(String, String)> = Vec::new();
        assert(extra@.len() == 0);
        ProfessionalPrompt {
            original_request: owned(user_request),
            professional_prompt: enriched,
            negative_prompt: Some(negative),
            locale: copy_opt(&context.locale),
            style: copy_opt(&context.style_hint),
            technical: PromptTechnical {
                generation_kind: Some(kind),
                enriched_by: Some(owned("RuleBasedPromptMaker")),
                api_options: None,
                clarifications: None,
                extra,
            },
        }
    }
}

impl PromptMaker for RuleBasedPromptMaker {
    open spec fn prompt_answers(&self, kind: GenerationKind, user_request: Seq<char>, context: PromptMakerContext, r: Result<ProfessionalPrompt, AetherError>) -> bool {
        r matches Ok(p) && rule_based_prompt(p, kind, user_request, context)
    }

    fn make_prompt(&self, kind: GenerationKind, user_request: &str, context: &PromptMakerContext) -> (r: Result<ProfessionalPrompt, AetherError>)
        ensures
            r matches Ok(p) && rule_based_prompt(p, kind, user_request@, *context),
    {
        Ok(RuleBasedPromptMaker::enrich(kind, user_request, context))
    }
}

/// Uses the LLM prompter when a guided model is targeted and the prompter is
/// available, the rule-based maker otherwise.
pub struct CompositePromptMaker<L: PromptMaker> {
    pub llm_prompter: Option<L>,
    pub rule_based: RuleBasedPromptMaker,
}

impl<L: PromptMaker> CompositePromptMaker<L> {
    /// A composite maker over the LLM prompter, when one could be set up.
    pub fn new(llm_prompter: Option<L>) -> (r: CompositePromptMaker<L>)
        ensures
            r.llm_prompter == llm_prompter,
    {
        CompositePromptMaker { llm_prompter, rule_based: RuleBasedPromptMaker }
    }
}

impl<L: PromptMaker> PromptMaker for CompositePromptMaker<L> {
    open spec fn prompt_answers(&self, kind: GenerationKind, user_request: Seq<char>, context: PromptMakerContext, r: Result<ProfessionalPrompt, AetherError>) -> bool {
        if context.target_model_id is Some && self.llm_prompter is Some {
            self.llm_prompter->0.prompt_answers(kind, user_request, context, r)
        } else {
            r matches Ok(p) && rule_based_prompt(p, kind, user_request, context)
        }
    }

    fn make_prompt(&self, kind: GenerationKind, user_request: &str, context: &PromptMakerContext) -> (r: Result<ProfessionalPrompt, AetherError>)
        ensures
            context.target_model_id is None || self.llm_prompter is None ==> (r matches Ok(p) && rule_based_prompt(
                p,
                kind,
                user_request@,
                *context,
            )),
    {
        if context.target_model_id.is_some() {
            if let Some(prompter) = &self.llm_prompter {
                return prompter.make_prompt(kind, user_request, context);
            }
        }
        Ok(RuleBasedPromptMaker::enrich(kind, user_request, context))
    }
}

} // verus!
