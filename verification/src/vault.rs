//! Vaults: shared kits of brand assets, rules and prompt snippets that projects
//! attach, and the prompt context compiled from the vaults a project attaches.

use vstd::prelude::*;
use vstd::utf8::encode_utf8;
use crate::dsl::string_views;
use crate::edit::{path_extension, std_path_extension};
use crate::generate::copy_opt;
use crate::refs::AetherError;
use crate::text::{
    chars_of, first_index, join_path, lemma_first_index, lemma_first_index_none, owned, path_join, push_char,
    push_str, str_eq, string_of, to_lowercase, unicode_lowercase,
};

verus! {

/// What a vault gathers.
#[derive(Debug, Clone, Copy, PartialEq, Eq, Structural)]
pub enum VaultKind {
    Brand,
    Project,
    Personal,
}

/// The kind of an asset kept in a vault.
#[derive(Debug, Clone, Copy, PartialEq, Eq, Structural)]
pub enum VaultAssetKind {
    Logo,
    DesignRulebook,
    LegalGuideline,
    PromptSnippet,
    NegativePrompt,
    ReferenceImage,
}

/// Where an asset may be used.
#[derive(Debug, Clone, Copy, PartialEq, Eq, Structural)]
pub enum VaultUsage {
    PromptMaker,
    GenerateImage,
    ExportBranding,
    Storyboard,
}

/// The fields of an asset's JSON metadata that the engine reads, with the
/// document itself as text.
#[derive(Debug, Clone)]
pub struct AssetMetadata {
    /// The `text` field, when it is a string.
    pub text: Option<String>,
    /// The `restricted` field, when it is `true`.
    pub restricted: bool,
    /// The string entries of `allowed_providers`, when it is an array.
    pub allowed_providers: Option<Vec<String>>,
    /// The string entries of `disallowed_providers`, when it is an array.
    pub disallowed_providers: Option<Vec<String>>,
    /// The document is a JSON object.
    pub object: bool,
    /// The whole metadata document.
    pub document: String,
}

/// Metadata, as character sequences.
pub struct MetaView {
    pub text: Option<Seq<char>>,
    pub restricted: bool,
    pub allowed: Option<Seq<Seq<char>>>,
    pub disallowed: Option<Seq<Seq<char>>>,
    pub object: bool,
    pub document: Seq<char>,
}

/// The views of an optional list of strings.
pub open spec fn opt_strings_view(o: Option<Vec<String>>) -> Option<Seq<Seq<char>>> {
    match o {
        Some(v) => Some(string_views(v@)),
        None => None,
    }
}

impl View for AssetMetadata {
    type V = MetaView;

    open spec fn view(&self) -> MetaView {
        MetaView {
            text: match self.text {
                Some(t) => Some(t@),
                None => None,
            },
            restricted: self.restricted,
            allowed: opt_strings_view(self.allowed_providers),
            disallowed: opt_strings_view(self.disallowed_providers),
            object: self.object,
            document: self.document@,
        }
    }
}

/// A vault registered on this machine.
#[derive(Debug, Clone)]
pub struct Vault {
    pub schema_version: u32,
    pub vault_id: String,
    pub name: String,
    pub kind: VaultKind,
    pub root: String,
    pub created_at_ms: i64,
    pub updated_at_ms: i64,
    pub description: Option<String>,
    pub default_language: Option<String>,
    pub owner: Option<String>,
}

/// An asset kept in a vault.
#[derive(Debug, Clone)]
pub struct VaultAsset {
    pub vault_asset_id: String,
    pub vault_id: String,
    pub kind: VaultAssetKind,
    pub name: String,
    pub path: String,
    pub hash: String,
    pub tags: Vec<String>,
    pub usage: Vec<VaultUsage>,
    pub metadata: AssetMetadata,
    pub created_at_ms: i64,
    pub updated_at_ms: i64,
}

/// A vault asset, as character sequences.
pub struct AssetView {
    pub id: Seq<char>,
    pub vault_id: Seq<char>,
    pub kind: VaultAssetKind,
    pub name: Seq<char>,
    pub path: Seq<char>,
    pub hash: Seq<char>,
    pub tags: Seq<Seq<char>>,
    pub usage: Seq<VaultUsage>,
    pub meta: MetaView,
    pub created_at_ms: i64,
    pub updated_at_ms: i64,
}

impl View for VaultAsset {
    type V = AssetView;

    open spec fn view(&self) -> AssetView {
        AssetView {
            id: self.vault_asset_id@,
            vault_id: self.vault_id@,
            kind: self.kind,
            name: self.name@,
            path: self.path@,
            hash: self.hash@,
            tags: string_views(self.tags@),
            usage: self.usage@,
            meta: self.metadata@,
            created_at_ms: self.created_at_ms,
            updated_at_ms: self.updated_at_ms,
        }
    }
}

/// The views of a sequence of assets.
pub open spec fn assets_view(s: Seq<VaultAsset>) -> Seq<AssetView> {
    s.map_values(|a: VaultAsset| a@)
}

/// The ids of a sequence of vaults.
pub open spec fn vault_ids(s: Seq<Vault>) -> Seq<Seq<char>> {
    s.map_values(|v: Vault| v.vault_id@)
}

/// A vault attached to a project.
#[derive(Debug, Clone)]
pub struct VaultLink {
    pub vault_id: String,
    pub alias: String,
    pub scope: String,
    pub locked_version: Option<String>,
}

/// A link, as character sequences.
pub struct LinkView {
    pub vault_id: Seq<char>,
    pub alias: Seq<char>,
    pub scope: Seq<char>,
    pub locked_version: Option<Seq<char>>,
}

impl View for VaultLink {
    type V = LinkView;

    open spec fn view(&self) -> LinkView {
        LinkView {
            vault_id: self.vault_id@,
            alias: self.alias@,
            scope: self.scope@,
            locked_version: match self.locked_version {
                Some(v) => Some(v@),
                None => None,
            },
        }
    }
}

/// The vaults a project attaches (`.aether/vault_links.json`).
#[derive(Debug, Clone)]
pub struct VaultLinks {
    pub schema_version: u32,
    pub attached_vaults: Vec<VaultLink>,
}

/// The views of a sequence of links.
pub open spec fn links_view(s: Seq<VaultLink>) -> Seq<LinkView> {
    s.map_values(|l: VaultLink| l@)
}

/// A non-textual vault asset handed to generation as a reference.
#[derive(Debug, Clone)]
pub struct VaultAssetRef {
    pub vault_asset_id: String,
    pub name: String,
    pub kind: VaultAssetKind,
    pub path: String,
    pub hash: String,
    pub tags: Vec<String>,
    pub metadata: AssetMetadata,
}

/// A reference asset, as character sequences.
pub struct AssetRefView {
    pub id: Seq<char>,
    pub name: Seq<char>,
    pub kind: VaultAssetKind,
    pub path: Seq<char>,
    pub hash: Seq<char>,
    pub tags: Seq<Seq<char>>,
    pub meta: MetaView,
}

impl View for VaultAssetRef {
    type V = AssetRefView;

    open spec fn view(&self) -> AssetRefView {
        AssetRefView {
            id: self.vault_asset_id@,
            name: self.name@,
            kind: self.kind,
            path: self.path@,
            hash: self.hash@,
            tags: string_views(self.tags@),
            meta: self.metadata@,
        }
    }
}

/// What one attached vault contributes to a prompt.
#[derive(Debug, Clone)]
pub struct VaultPromptContext {
    pub vault_id: String,
    pub name: String,
    pub kind: VaultKind,
    pub rules: Vec<String>,
    pub prompt_snippets: Vec<String>,
    pub negative_prompts: Vec<String>,
    pub reference_assets: Vec<VaultAssetRef>,
}

/// A vault's prompt contribution, as character sequences.
pub struct VaultContextView {
    pub vault_id: Seq<char>,
    pub name: Seq<char>,
    pub kind: VaultKind,
    pub rules: Seq<Seq<char>>,
    pub snippets: Seq<Seq<char>>,
    pub negatives: Seq<Seq<char>>,
    pub references: Seq<AssetRefView>,
}

impl View for VaultPromptContext {
    type V = VaultContextView;

    open spec fn view(&self) -> VaultContextView {
        VaultContextView {
            vault_id: self.vault_id@,
            name: self.name@,
            kind: self.kind,
            rules: string_views(self.rules@),
            snippets: string_views(self.prompt_snippets@),
            negatives: string_views(self.negative_prompts@),
            references: self.reference_assets@.map_values(|r: VaultAssetRef| r@),
        }
    }
}

/// The context a prompt maker receives from the project and its vaults.
#[derive(Debug, Clone)]
pub struct PromptContext {
    pub project_summary: Option<String>,
    pub style_hints: Vec<String>,
    pub negative_constraints: Vec<String>,
    pub vault_context: Vec<VaultPromptContext>,
}

/// The views of the vault contexts of a prompt context.
pub open spec fn contexts_view(s: Seq<VaultPromptContext>) -> Seq<VaultContextView> {
    s.map_values(|c: VaultPromptContext| c@)
}

// ---------------------------------------------------------------------------
// Compiling the prompt context
// ---------------------------------------------------------------------------

/// A design rulebook or a legal guideline: a rule.
pub open spec fn is_rule(a: AssetView) -> bool {
    a.kind == VaultAssetKind::DesignRulebook || a.kind == VaultAssetKind::LegalGuideline
}

/// An asset that is neither a rule, a prompt snippet nor a negative prompt.
pub open spec fn is_reference(a: AssetView) -> bool {
    !is_rule(a) && a.kind != VaultAssetKind::PromptSnippet && a.kind != VaultAssetKind::NegativePrompt
}

/// The text an asset contributes: its metadata's `text`, else its name.
pub open spec fn text_or_name(a: AssetView) -> Seq<char> {
    match a.meta.text {
        Some(t) => t,
        None => a.name,
    }
}

/// The reference that an asset contributes.
pub open spec fn ref_of(a: AssetView) -> AssetRefView {
    AssetRefView { id: a.id, name: a.name, kind: a.kind, path: a.path, hash: a.hash, tags: a.tags, meta: a.meta }
}

/// The prompt contribution of a vault with the given assets: the texts of its
/// rules, snippets and negative prompts, and its other assets as references, each
/// in asset order.
pub open spec fn vault_context_spec(vault_id: Seq<char>, name: Seq<char>, kind: VaultKind, assets: Seq<AssetView>) -> VaultContextView {
    VaultContextView {
        vault_id,
        name,
        kind,
        rules: assets.filter(|a: AssetView| is_rule(a)).map_values(|a: AssetView| text_or_name(a)),
        snippets: assets.filter(|a: AssetView| a.kind == VaultAssetKind::PromptSnippet).map_values(|a: AssetView| text_or_name(a)),
        negatives: assets.filter(|a: AssetView| a.kind == VaultAssetKind::NegativePrompt).map_values(|a: AssetView| text_or_name(a)),
        references: assets.filter(|a: AssetView| is_reference(a)).map_values(|a: AssetView| ref_of(a)),
    }
}

/// The rules, snippets, negative prompts and references among `assets` number as
/// many as the assets.
proof fn lemma_filter_split(assets: Seq<AssetView>)
    ensures
        assets.filter(|a: AssetView| is_rule(a)).len()
            + assets.filter(|a: AssetView| a.kind == VaultAssetKind::PromptSnippet).len()
            + assets.filter(|a: AssetView| a.kind == VaultAssetKind::NegativePrompt).len()
            + assets.filter(|a: AssetView| is_reference(a)).len() == assets.len(),
    decreases assets.len(),
{
    reveal(Seq::filter);
    if assets.len() > 0 {
        lemma_filter_split(assets.drop_last());
    }
}

/// Each asset of a vault lands in exactly one part of the vault's prompt
/// contribution: rules, prompt snippets, negative prompts or references.
pub proof fn law_vault_assets_partitioned(vault_id: Seq<char>, name: Seq<char>, kind: VaultKind, assets: Seq<AssetView>)
    ensures
        ({
            let c = vault_context_spec(vault_id, name, kind, assets);
            c.rules.len() + c.snippets.len() + c.negatives.len() + c.references.len() == assets.len()
        }),
        forall|a: AssetView| #![auto] (is_rule(a) ==> !is_reference(a) && a.kind != VaultAssetKind::PromptSnippet && a.kind != VaultAssetKind::NegativePrompt)
            && (a.kind == VaultAssetKind::PromptSnippet ==> !is_reference(a) && a.kind != VaultAssetKind::NegativePrompt),
{
    lemma_filter_split(assets);
}

/// A copy of a list of strings.
pub fn copy_strings(v: &Vec<String>) -> (r: Vec<String>)
    ensures
        string_views(r@) == string_views(v@),
{
    let mut r: Vec<String> = Vec::new();
    let mut i: usize = 0;
    while i < v.len()
        invariant
            i <= v.len(),
            string_views(r@) == string_views(v@).subrange(0, i as int),
        decreases v.len() - i,
    {
        let ghost before = r@;
        let c = v[i].clone();
        assert(c@ == string_views(v@)[i as int]);
        r.push(c);
        assert(string_views(r@) =~= string_views(before).push(c@));
        assert(string_views(r@) =~= string_views(v@).subrange(0, i + 1));
        i = i + 1;
    }
    assert(string_views(v@).subrange(0, i as int) =~= string_views(v@));
    r
}

fn copy_opt_strings(o: &Option<Vec<String>>) -> (r: Option<Vec<String>>)
    ensures
        opt_strings_view(r) == opt_strings_view(*o),
{
    match o {
        Some(v) => Some(copy_strings(v)),
        None => None,
    }
}

impl AssetMetadata {
    /// A copy with the same fields.
    pub fn duplicate(&self) -> (r: AssetMetadata)
        ensures
            r@ == self@,
    {
        AssetMetadata {
            text: copy_opt(&self.text),
            restricted: self.restricted,
            allowed_providers: copy_opt_strings(&self.allowed_providers),
            disallowed_providers: copy_opt_strings(&self.disallowed_providers),
            object: self.object,
            document: self.document.clone(),
        }
    }
}

fn text_of(a: &VaultAsset) -> (t: String)
    ensures
        t@ == text_or_name(a@),
{
    match &a.metadata.text {
        Some(t) => t.clone(),
        None => a.name.clone(),
    }
}

fn push_text(v: &mut Vec<String>, t: String)
    ensures
        string_views(final(v)@) == string_views(old(v)@).push(t@),
{
    let ghost before = v@;
    v.push(t);
    assert(string_views(v@) =~= string_views(before).push(t@));
}

/// The prompt contribution of `vault` with its `assets`.
pub fn vault_prompt_context(vault: &Vault, assets: &Vec<VaultAsset>) -> (r: VaultPromptContext)
    ensures
        r@ == vault_context_spec(vault.vault_id@, vault.name@, vault.kind, assets_view(assets@)),
{
    let ghost s = assets_view(assets@);
    let mut rules: Vec<String> = Vec::new();
    let mut snippets: Vec<String> = Vec::new();
    let mut negatives: Vec<String> = Vec::new();
    let mut references: Vec<VaultAssetRef> = Vec::new();
    let mut i: usize = 0;
    assert(s.subrange(0, 0) =~= Seq::<AssetView>::empty());
    while i < assets.len()
        invariant
            i <= assets.len(),
            s == assets_view(assets@),
            string_views(rules@) == s.subrange(0, i as int).filter(|a: AssetView| is_rule(a)).map_values(
                |a: AssetView| text_or_name(a),
            ),
            string_views(snippets@) == s.subrange(0, i as int).filter(
                |a: AssetView| a.kind == VaultAssetKind::PromptSnippet,
            ).map_values(|a: AssetView| text_or_name(a)),
            string_views(negatives@) == s.subrange(0, i as int).filter(
                |a: AssetView| a.kind == VaultAssetKind::NegativePrompt,
            ).map_values(|a: AssetView| text_or_name(a)),
            references@.map_values(|r: VaultAssetRef| r@) == s.subrange(0, i as int).filter(|a: AssetView| is_reference(a)).map_values(
                |a: AssetView| ref_of(a),
            ),
        decreases assets.len() - i,
    {
        let a = &assets[i];
        proof {
            assert(s[i as int] == a@);
            assert(s.subrange(0, i + 1) =~= s.subrange(0, i as int).push(a@));
            s.subrange(0, i as int).lemma_filter_push(a@, |a: AssetView| is_rule(a));
            s.subrange(0, i as int).lemma_filter_push(a@, |a: AssetView| a.kind == VaultAssetKind::PromptSnippet);
            s.subrange(0, i as int).lemma_filter_push(a@, |a: AssetView| a.kind == VaultAssetKind::NegativePrompt);
            s.subrange(0, i as int).lemma_filter_push(a@, |a: AssetView| is_reference(a));
        }
        let ghost r0 = s.subrange(0, i as int).filter(|a: AssetView| is_rule(a));
        let ghost p0 = s.subrange(0, i as int).filter(|a: AssetView| a.kind == VaultAssetKind::PromptSnippet);
        let ghost n0 = s.subrange(0, i as int).filter(|a: AssetView| a.kind == VaultAssetKind::NegativePrompt);
        let ghost f0 = s.subrange(0, i as int).filter(|a: AssetView| is_reference(a));
        match a.kind {
            VaultAssetKind::DesignRulebook | VaultAssetKind::LegalGuideline => {
                push_text(&mut rules, text_of(a));
                assert(r0.push(a@).map_values(|a: AssetView| text_or_name(a)) =~= r0.map_values(
                    |a: AssetView| text_or_name(a),
                ).push(text_or_name(a@)));
            },
            VaultAssetKind::PromptSnippet => {
                push_text(&mut snippets, text_of(a));
                assert(p0.push(a@).map_values(|a: AssetView| text_or_name(a)) =~= p0.map_values(
                    |a: AssetView| text_or_name(a),
                ).push(text_or_name(a@)));
            },
            VaultAssetKind::NegativePrompt => {
                push_text(&mut negatives, text_of(a));
                assert(n0.push(a@).map_values(|a: AssetView| text_or_name(a)) =~= n0.map_values(
                    |a: AssetView| text_or_name(a),
                ).push(text_or_name(a@)));
            },
            _ => {
                let r = VaultAssetRef {
                    vault_asset_id: a.vault_asset_id.clone(),
                    name: a.name.clone(),
                    kind: a.kind,
                    path: a.path.clone(),
                    hash: a.hash.clone(),
                    tags: copy_strings(&a.tags),
                    metadata: a.metadata.duplicate(),
                };
                let ghost before = references@;
                references.push(r);
                assert(references@.map_values(|r: VaultAssetRef| r@) =~= before.map_values(|r: VaultAssetRef| r@).push(
                    ref_of(a@),
                ));
                assert(f0.push(a@).map_values(|a: AssetView| ref_of(a)) =~= f0.map_values(|a: AssetView| ref_of(a)).push(
                    ref_of(a@),
                ));
            },
        }
        i = i + 1;
    }
    assert(s.subrange(0, i as int) =~= s);
    VaultPromptContext {
        vault_id: vault.vault_id.clone(),
        name: vault.name.clone(),
        kind: vault.kind,
        rules,
        prompt_snippets: snippets,
        negative_prompts: negatives,
        reference_assets: references,
    }
}

// ---------------------------------------------------------------------------
// The vault manager
// ---------------------------------------------------------------------------

/// The position of the first vault with id `id`.
pub open spec fn vault_index(vaults: Seq<Vault>, id: Seq<char>) -> Option<int> {
    first_index(vault_ids(vaults), |v: Seq<char>| v == id)
}

/// The link that attaching vault `id` as `alias` adds.
pub open spec fn new_link(id: Seq<char>, alias: Seq<char>) -> LinkView {
    LinkView { vault_id: id, alias, scope: "default"@, locked_version: None }
}

/// The links after attaching vault `id` as `alias`: unchanged when it is already attached.
pub open spec fn attach_spec(links: Seq<LinkView>, id: Seq<char>, alias: Seq<char>) -> Seq<LinkView> {
    if attached(links, id) {
        links
    } else {
        links.push(new_link(id, alias))
    }
}

/// Some link attaches vault `id`.
pub open spec fn attached(links: Seq<LinkView>, id: Seq<char>) -> bool {
    exists|i: int| 0 <= i < links.len() && (#[trigger] links[i]).vault_id == id
}

pub open spec fn msg_vault_not_found(id: Seq<char>) -> Seq<char> {
    "Vault '"@ + id + "' not found"@
}

pub open spec fn msg_not_attached(id: Seq<char>) -> Seq<char> {
    "Vault '"@ + id + "' was not attached to this project"@
}

pub open spec fn msg_vault_exists(id: Seq<char>) -> Seq<char> {
    "Vault with ID '"@ + id + "' already exists"@
}

/// The prompt contributions of the attached vaults, in link order: each link whose
/// vault is registered contributes that vault's context with the assets loaded
/// for it (`assets[i]` for the `i`-th link; none when absent).
pub open spec fn compile_spec(links: Seq<LinkView>, vaults: Seq<Vault>, assets: Seq<Seq<AssetView>>) -> Seq<VaultContextView>
    decreases links.len(),
{
    if links.len() == 0 {
        Seq::empty()
    } else {
        let i = links.len() - 1;
        let prev = compile_spec(links.drop_last(), vaults, assets);
        match vault_index(vaults, links[i].vault_id) {
            Some(j) => prev.push(vault_context_spec(
                vaults[j].vault_id@,
                vaults[j].name@,
                vaults[j].kind,
                if i < assets.len() { assets[i] } else { Seq::empty() },
            )),
            None => prev,
        }
    }
}

/// Lower-case, then spaces become underscores.
pub open spec fn vault_id_spec(name: Seq<char>) -> Seq<char> {
    unicode_lowercase(name).map_values(|c: char| if c == ' ' { '_' } else { c })
}

/// The name given to what `Path::parent` returns for `path`, as text.
pub uninterp spec fn std_path_parent(path: Seq<char>) -> Option<Seq<char>>;

/// The path without its last component (`Path::parent`): none for a root or the
/// empty path. Which prefix that is (trailing separators, `.` components) is left
/// to its name.
#[verifier::external_body]
fn path_parent(path: &str) -> (r: Option<String>)
    ensures
        crate::dsl::opt_view(r) == std_path_parent(path@),
{
    match std::path::Path::new(path).parent() {
        Some(p) => Some(p.to_string_lossy().into_owned()),
        None => None,
    }
}

/// The name given to the text `serde_json` writes for the JSON object `document`
/// with its field `key` set to the string `value`; none when `document` is not a
/// JSON object.
pub uninterp spec fn json_object_with(document: Seq<char>, key: Seq<char>, value: Seq<char>) -> Option<Seq<char>>;

/// Sets field `key` of the JSON object `document` to the string `value`
/// (`serde_json::Map::insert`) and writes the object back as text; none when
/// `document` does not parse as a JSON object. The text is only named.
#[verifier::external_body]
fn json_set_string(document: &str, key: &str, value: &str) -> (r: Option<String>)
    ensures
        crate::dsl::opt_view(r) == json_object_with(document@, key@, value@),
{
    match serde_json::from_str::<serde_json::Value>(document) {
        Ok(serde_json::Value::Object(mut map)) => {
            map.insert(key.to_string(), serde_json::Value::String(value.to_string()));
            Some(serde_json::Value::Object(map).to_string())
        },
        _ => None,
    }
}

/// The name given to what `blake3::hash` returns for `bytes`, written in
/// lower-case hexadecimal.
pub uninterp spec fn blake3_hex_of(bytes: Seq<u8>) -> Seq<char>;

/// The BLAKE3 digest of `bytes`, in hexadecimal (`blake3::hash(..).to_hex()`).
/// The crate documents the digest as 32 bytes, written as 64 hexadecimal
/// characters; that is all that is stated of it beyond its name.
#[verifier::external_body]
fn blake3_hex(bytes: &[u8]) -> (r: String)
    ensures
        r@ == blake3_hex_of(bytes@),
        r@.len() == 64,
{
    blake3::hash(bytes).to_hex().to_string()
}

/// A lowercase hexadecimal digit.
pub open spec fn is_lower_hex(c: char) -> bool {
    ('0' <= c && c <= '9') || ('a' <= c && c <= 'f')
}

/// `s` is a version-4 UUID written hyphenated in lowercase: 36 characters, hyphens
/// at positions 8, 13, 18 and 23, hexadecimal digits elsewhere, the version digit
/// `4` at position 14 and the variant digit (`8`, `9`, `a` or `b`) at position 19.
pub open spec fn v4_uuid_text(s: Seq<char>) -> bool {
    &&& s.len() == 36
    &&& forall|i: int| 0 <= i < 36 ==> if i == 8 || i == 13 || i == 18 || i == 23 {
        #[trigger] s[i] == '-'
    } else {
        is_lower_hex(s[i])
    }
    &&& s[14] == '4'
    &&& (s[19] == '8' || s[19] == '9' || s[19] == 'a' || s[19] == 'b')
}

/// A fresh random identifier (`uuid::Uuid::new_v4`), in the hyphenated lowercase
/// form the crate's `Display` writes; which digits it has is left open: they are
/// random.
#[verifier::external_body]
pub(crate) fn new_uuid() -> (r: String)
    ensures
        v4_uuid_text(r@),
{
    uuid::Uuid::new_v4().to_string()
}

fn find_vault(vaults: &Vec<Vault>, id: &str) -> (r: Option<usize>)
    ensures
        match r {
            Some(j) => j < vaults.len() && vault_index(vaults@, id@) == Some(j as int),
            None => vault_index(vaults@, id@) is None,
        },
{
    let ghost ids = vault_ids(vaults@);
    let mut j: usize = 0;
    while j < vaults.len()
        invariant
            j <= vaults.len(),
            ids == vault_ids(vaults@),
            forall|x: int| 0 <= x < j ==> (#[trigger] ids[x]) != id@,
        decreases vaults.len() - j,
    {
        assert(ids[j as int] == vaults@[j as int].vault_id@);
        if str_eq(vaults[j].vault_id.as_str(), id) {
            proof {
                lemma_first_index(ids, |v: Seq<char>| v == id@, j as int);
            }
            return Some(j);
        }
        j = j + 1;
    }
    proof {
        lemma_first_index_none(ids, |v: Seq<char>| v == id@);
    }
    None
}

fn copy_link(l: &VaultLink) -> (r: VaultLink)
    ensures
        r@ == l@,
{
    VaultLink {
        vault_id: l.vault_id.clone(),
        alias: l.alias.clone(),
        scope: l.scope.clone(),
        locked_version: copy_opt(&l.locked_version),
    }
}

fn vault_message(prefix: &str, id: &str, suffix: &str) -> (r: AetherError)
    ensures
        r matches AetherError::VaultError(m) && m@ == prefix@ + id@ + suffix@,
{
    let mut m = owned(prefix);
    push_str(&mut m, id);
    push_str(&mut m, suffix);
    AetherError::VaultError(m)
}

/// Where the vault registry and the vaults' files live.
#[derive(Debug, Clone)]
pub struct VaultManager {
    registry_path: String,
    storage_root: String,
}

impl VaultManager {
    /// The path of the vault registry.
    pub closed spec fn registry(&self) -> Seq<char> {
        self.registry_path@
    }

    /// The directory holding the vaults.
    pub closed spec fn storage(&self) -> Seq<char> {
        self.storage_root@
    }

    /// A manager with the given registry path, whose vaults are stored under
    /// `local/share/aether/vaults` in the registry's grandparent directory
    /// (`/h/.config/aether/vaults.json` gives `/h/.config/local/share/aether/vaults`);
    /// when the path has no such directory, under `.local/share/aether/vaults` in the
    /// home directory `home` (`/home/omni` when unset).
    pub fn with_registry_path(registry_path: String, home: Option<&str>) -> (r: VaultManager)
        ensures
            r.registry() == registry_path@,
            r.storage() == match std_path_parent(
                match std_path_parent(registry_path@) {
                    Some(p) => p,
                    None => registry_path@,
                },
            ) {
                Some(q) => join_path(q, "local/share/aether/vaults"@),
                None => join_path(
                    match home {
                        Some(h) => h@,
                        None => "/home/omni"@,
                    },
                    ".local/share/aether/vaults"@,
                ),
            },
    {
        let config_dir = match path_parent(registry_path.as_str()) {
            Some(p) => p,
            None => registry_path.clone(),
        };
        let storage_root = match path_parent(config_dir.as_str()) {
            Some(q) => path_join(q.as_str(), "local/share/aether/vaults"),
            None => {
                let h = match home {
                    Some(h) => owned(h),
                    None => owned("/home/omni"),
                };
                path_join(h.as_str(), ".local/share/aether/vaults")
            },
        };
        VaultManager { registry_path, storage_root }
    }

    /// A manager with the given registry path and storage root.
    pub fn with_paths(registry_path: String, storage_root: String) -> (r: VaultManager)
        ensures
            r.registry() == registry_path@,
            r.storage() == storage_root@,
    {
        VaultManager { registry_path, storage_root }
    }

    /// The path of the vault registry.
    pub fn registry_path(&self) -> (r: String)
        ensures
            r@ == self.registry(),
    {
        self.registry_path.clone()
    }

    /// The directory holding the vaults.
    pub fn vault_storage_root(&self) -> (r: String)
        ensures
            r@ == self.storage(),
    {
        self.storage_root.clone()
    }

    /// The id a vault named `name` gets: lower-cased, spaces made underscores.
    pub fn vault_id_for(name: &str) -> (r: String)
        ensures
            r@ == vault_id_spec(name@),
    {
        let lower = to_lowercase(name);
        let cs = chars_of(lower.as_str());
        let mut out: Vec<char> = Vec::new();
        let mut i: usize = 0;
        while i < cs.len()
            invariant
                i <= cs.len(),
                cs@ == unicode_lowercase(name@),
                out@ == cs@.subrange(0, i as int).map_values(|c: char| if c == ' ' { '_' } else { c }),
            decreases cs.len() - i,
        {
            let c = cs[i];
            out.push(if c == ' ' { '_' } else { c });
            assert(cs@.subrange(0, i + 1).map_values(|c: char| if c == ' ' { '_' } else { c }) =~= cs@.subrange(
                0,
                i as int,
            ).map_values(|c: char| if c == ' ' { '_' } else { c }).push(if c == ' ' { '_' } else { c }));
            i = i + 1;
        }
        assert(cs@.subrange(0, i as int) =~= cs@);
        string_of(&out)
    }

    /// The record of a new vault named `name`, created at `now_ms`, given the
    /// registered `vaults`: its id must not be taken. Its files go in a directory
    /// named by its id under the storage root.
    pub fn create_vault(
        &self,
        vaults: &Vec<Vault>,
        name: &str,
        kind: VaultKind,
        description: Option<String>,
        now_ms: i64,
    ) -> (r: Result<Vault, AetherError>)
        ensures
            vault_index(vaults@, vault_id_spec(name@)) is Some ==> (r matches Err(AetherError::VaultError(m)) && m@
                == msg_vault_exists(vault_id_spec(name@))),
            vault_index(vaults@, vault_id_spec(name@)) is None ==> (r matches Ok(v) && v.schema_version == 1 && v.vault_id@
                == vault_id_spec(name@) && v.name@ == name@ && v.kind == kind && v.root@ == join_path(
                self.storage(),
                vault_id_spec(name@),
            ) && v.created_at_ms == now_ms && v.updated_at_ms == now_ms && opt_view_eq(v.description, description)
                && v.default_language.is_some() && v.default_language.unwrap()@ == "en"@ && v.owner is None),
    {
        let vault_id = Self::vault_id_for(name);
        if find_vault(vaults, vault_id.as_str()).is_some() {
            return Err(vault_message("Vault with ID '", vault_id.as_str(), "' already exists"));
        }
        let root = path_join(self.storage_root.as_str(), vault_id.as_str());
        Ok(Vault {
            schema_version: 1,
            vault_id,
            name: owned(name),
            kind,
            root,
            created_at_ms: now_ms,
            updated_at_ms: now_ms,
            description,
            default_language: Some(owned("en")),
            owner: None,
        })
    }

    /// Attaches vault `vault_id` as `alias` to a project whose links are `links`:
    /// the vault must be registered; a vault already attached is left as it is.
    pub fn attach_vault(&self, vaults: &Vec<Vault>, links: VaultLinks, vault_id: &str, alias: &str) -> (r: Result<VaultLinks, AetherError>)
        ensures
            vault_index(vaults@, vault_id@) is None ==> (r matches Err(AetherError::VaultError(m)) && m@ == msg_vault_not_found(vault_id@)),
            vault_index(vaults@, vault_id@) is Some ==> (r matches Ok(l) && l.schema_version == links.schema_version && links_view(
                l.attached_vaults@,
            ) == attach_spec(links_view(links.attached_vaults@), vault_id@, alias@)),
    {
        if find_vault(vaults, vault_id).is_none() {
            return Err(vault_message("Vault '", vault_id, "' not found"));
        }
        let ghost lv = links_view(links.attached_vaults@);
        let mut i: usize = 0;
        while i < links.attached_vaults.len()
            invariant
                i <= links.attached_vaults.len(),
                lv == links_view(links.attached_vaults@),
                vault_index(vaults@, vault_id@) is Some,
                forall|j: int| 0 <= j < i ==> (#[trigger] lv[j]).vault_id != vault_id@,
            decreases links.attached_vaults.len() - i,
        {
            assert(lv[i as int] == links.attached_vaults@[i as int]@);
            if str_eq(links.attached_vaults[i].vault_id.as_str(), vault_id) {
                assert(attached(lv, vault_id@));
                return Ok(links);
            }
            i = i + 1;
        }
        let mut links = links;
        let link = VaultLink {
            vault_id: owned(vault_id),
            alias: owned(alias),
            scope: owned("default"),
            locked_version: None,
        };
        links.attached_vaults.push(link);
        assert(links_view(links.attached_vaults@) =~= lv.push(new_link(vault_id@, alias@)));
        Ok(links)
    }

    /// Detaches vault `vault_id` from a project whose links are `links`: every link
    /// to it goes; it is an error when there is none.
    pub fn detach_vault(&self, links: VaultLinks, vault_id: &str) -> (r: Result<VaultLinks, AetherError>)
        ensures
            !attached(links_view(links.attached_vaults@), vault_id@) ==> (r matches Err(AetherError::VaultError(m)) && m@
                == msg_not_attached(vault_id@)),
            attached(links_view(links.attached_vaults@), vault_id@) ==> (r matches Ok(l) && l.schema_version
                == links.schema_version && links_view(l.attached_vaults@) == links_view(links.attached_vaults@).filter(
                |x: LinkView| x.vault_id != vault_id@,
            )),
    {
        let ghost lv = links_view(links.attached_vaults@);
        let mut kept: Vec<VaultLink> = Vec::new();
        let mut removed = false;
        let mut i: usize = 0;
        assert(lv.subrange(0, 0) =~= Seq::<LinkView>::empty());
        while i < links.attached_vaults.len()
            invariant
                i <= links.attached_vaults.len(),
                lv == links_view(links.attached_vaults@),
                links_view(kept@) == lv.subrange(0, i as int).filter(|x: LinkView| x.vault_id != vault_id@),
                removed == exists|j: int| 0 <= j < i && (#[trigger] lv[j]).vault_id == vault_id@,
            decreases links.attached_vaults.len() - i,
        {
            let l = &links.attached_vaults[i];
            proof {
                assert(lv[i as int] == l@);
                assert(lv.subrange(0, i + 1) =~= lv.subrange(0, i as int).push(l@));
                lv.subrange(0, i as int).lemma_filter_push(l@, |x: LinkView| x.vault_id != vault_id@);
            }
            if str_eq(l.vault_id.as_str(), vault_id) {
                removed = true;
            } else {
                let c = copy_link(l);
                let ghost before = kept@;
                kept.push(c);
                assert(links_view(kept@) =~= links_view(before).push(c@));
            }
            i = i + 1;
        }
        assert(lv.subrange(0, i as int) =~= lv);
        if !removed {
            return Err(vault_message("Vault '", vault_id, "' was not attached to this project"));
        }
        Ok(VaultLinks { schema_version: links.schema_version, attached_vaults: kept })
    }

    /// The prompt context of a project whose links are `links`, given the
    /// registered `vaults` and the assets loaded for each link (`assets[i]` for
    /// the `i`-th link).
    pub fn compile_prompt_context(&self, links: &VaultLinks, vaults: &Vec<Vault>, assets: &Vec<Vec<VaultAsset>>) -> (r: PromptContext)
        ensures
            r.project_summary is None,
            r.style_hints@.len() == 0,
            r.negative_constraints@.len() == 0,
            contexts_view(r.vault_context@) == compile_spec(
                links_view(links.attached_vaults@),
                vaults@,
                assets@.map_values(|v: Vec<VaultAsset>| assets_view(v@)),
            ),
    {
        let ghost lv = links_view(links.attached_vaults@);
        let ghost av = assets@.map_values(|v: Vec<VaultAsset>| assets_view(v@));
        let mut out: Vec<VaultPromptContext> = Vec::new();
        let mut i: usize = 0;
        assert(lv.subrange(0, 0) =~= Seq::<LinkView>::empty());
        while i < links.attached_vaults.len()
            invariant
                i <= links.attached_vaults.len(),
                lv == links_view(links.attached_vaults@),
                av == assets@.map_values(|v: Vec<VaultAsset>| assets_view(v@)),
                contexts_view(out@) == compile_spec(lv.subrange(0, i as int), vaults@, av),
            decreases links.attached_vaults.len() - i,
        {
            let link = &links.attached_vaults[i];
            proof {
                assert(lv[i as int] == link@);
                assert(lv.subrange(0, i + 1).drop_last() =~= lv.subrange(0, i as int));
            }
            match find_vault(vaults, link.vault_id.as_str()) {
                Some(j) => {
                    let empty: Vec<VaultAsset> = Vec::new();
                    let ctx = if i < assets.len() {
                        vault_prompt_context(&vaults[j], &assets[i])
                    } else {
                        assert(assets_view(empty@) =~= Seq::<AssetView>::empty());
                        vault_prompt_context(&vaults[j], &empty)
                    };
                    let ghost before = out@;
                    out.push(ctx);
                    assert(contexts_view(out@) =~= contexts_view(before).push(ctx@));
                },
                None => {},
            }
            i = i + 1;
        }
        assert(lv.subrange(0, i as int) =~= lv);
        PromptContext {
            project_summary: None,
            style_hints: Vec::new(),
            negative_constraints: Vec::new(),
            vault_context: out,
        }
    }

    /// Adds the file at `source_path` to vault `vault_id` as an asset named `name`,
    /// given the registered `vaults`, the vault's current `assets` and the file's
    /// `content` (none when the file does not exist), at `now_ms`. The asset is
    /// stored under its content hash with the file's extension (`bin` when it has
    /// none), and it replaces any asset of the same name. Returns the new asset,
    /// at whose path the caller writes the content, and the vault's new asset list.
    pub fn add_file_asset(
        &self,
        vaults: &Vec<Vault>,
        assets: Vec<VaultAsset>,
        vault_id: &str,
        name: &str,
        kind: VaultAssetKind,
        source_path: &str,
        content: &Option<Vec<u8>>,
        usage: Vec<VaultUsage>,
        tags: Vec<String>,
        metadata: AssetMetadata,
        now_ms: i64,
    ) -> (r: Result<(VaultAsset, Vec<VaultAsset>), AetherError>)
        ensures
            vault_index(vaults@, vault_id@) is None ==> (r matches Err(AetherError::VaultError(m)) && m@ == msg_vault_not_found(vault_id@)),
            vault_index(vaults@, vault_id@) is Some && content is None ==> (r matches Err(AetherError::IoError(p, m))
                && p@ == source_path@ && m@ == "Source file does not exist"@),
            vault_index(vaults@, vault_id@) is Some && content is Some ==> (r matches Ok((a, all)) && a@.vault_id == vault_id@
                && a@.kind == kind && a@.name == name@ && a@.hash == blake3_hex_of(content->0@) && a@.path == join_path(
                join_path(join_path(self.storage(), vault_id@), "assets"@),
                blake3_hex_of(content->0@) + "."@ + match std_path_extension(source_path@) {
                    Some(e) => e,
                    None => "bin"@,
                },
            ) && a@.tags == string_views(tags@) && a@.usage == usage@ && a@.meta == metadata@ && v4_uuid_text(a@.id)
                && a@.created_at_ms == now_ms && a@.updated_at_ms == now_ms && assets_view(all@) == assets_view(
                assets@,
            ).filter(|x: AssetView| x.name != name@).push(a@)),
    {
        if find_vault(vaults, vault_id).is_none() {
            return Err(vault_message("Vault '", vault_id, "' not found"));
        }
        let bytes = match content {
            Some(b) => b,
            None => {
                return Err(AetherError::IoError(owned(source_path), owned("Source file does not exist")));
            },
        };
        let hash = blake3_hex(bytes.as_slice());
        let ext = match path_extension(source_path) {
            Some(e) => e,
            None => owned("bin"),
        };
        let vault_dir = path_join(self.storage_root.as_str(), vault_id);
        let assets_dir = path_join(vault_dir.as_str(), "assets");
        let mut file_name = hash.clone();
        push_str(&mut file_name, ".");
        push_str(&mut file_name, ext.as_str());
        let path = path_join(assets_dir.as_str(), file_name.as_str());
        let asset = VaultAsset {
            vault_asset_id: new_uuid(),
            vault_id: owned(vault_id),
            kind,
            name: owned(name),
            path,
            hash,
            tags,
            usage,
            metadata,
            created_at_ms: now_ms,
            updated_at_ms: now_ms,
        };
        let kept = replace_named(assets, &asset, name);
        Ok((asset, kept))
    }

    /// Adds a text asset (a rule, a snippet, ...) named `name` to vault `vault_id`,
    /// given the registered `vaults` and the vault's current `assets`, at `now_ms`.
    /// The asset is stored under its content hash, its metadata records the text
    /// (when the metadata is an object), and it replaces any asset of the same name.
    /// Returns the new asset and the vault's new asset list.
    pub fn add_text_asset(
        &self,
        vaults: &Vec<Vault>,
        assets: Vec<VaultAsset>,
        vault_id: &str,
        name: &str,
        kind: VaultAssetKind,
        text: &str,
        usage: Vec<VaultUsage>,
        tags: Vec<String>,
        metadata: AssetMetadata,
        now_ms: i64,
    ) -> (r: Result<(VaultAsset, Vec<VaultAsset>), AetherError>)
        ensures
            vault_index(vaults@, vault_id@) is None ==> (r matches Err(AetherError::VaultError(m)) && m@ == msg_vault_not_found(vault_id@)),
            vault_index(vaults@, vault_id@) is Some ==> (r matches Ok((a, all)) && a@.vault_id == vault_id@ && a@.kind == kind
                && a@.name == name@ && a@.hash == blake3_hex_of(encode_utf8(text@)) && a@.path == join_path(
                join_path(join_path(self.storage(), vault_id@), "assets"@),
                blake3_hex_of(encode_utf8(text@)) + ".txt"@,
            ) && a@.tags == string_views(tags@) && a@.usage == usage@ && a@.meta.text == (if metadata.object {
                Some(text@)
            } else {
                metadata@.text
            }) && a@.meta.restricted == metadata.restricted && a@.meta.allowed == metadata@.allowed
                && a@.meta.disallowed == metadata@.disallowed && a@.meta.document == (if metadata.object {
                match json_object_with(metadata@.document, "text"@, text@) {
                    Some(d) => d,
                    None => metadata@.document,
                }
            } else {
                metadata@.document
            })
                && a@.meta.object == metadata.object && v4_uuid_text(a@.id) && a@.created_at_ms == now_ms
                && a@.updated_at_ms == now_ms && assets_view(all@) == assets_view(assets@).filter(
                |x: AssetView| x.name != name@,
            ).push(a@)),
    {
        if find_vault(vaults, vault_id).is_none() {
            return Err(vault_message("Vault '", vault_id, "' not found"));
        }
        let hash = blake3_hex(text.as_bytes());
        let vault_dir = path_join(self.storage_root.as_str(), vault_id);
        let assets_dir = path_join(vault_dir.as_str(), "assets");
        let mut file_name = hash.clone();
        push_str(&mut file_name, ".txt");
        let path = path_join(assets_dir.as_str(), file_name.as_str());
        let mut metadata = metadata;
        if metadata.object {
            metadata.text = Some(owned(text));
            match json_set_string(metadata.document.as_str(), "text", text) {
                Some(d) => {
                    metadata.document = d;
                },
                None => {},
            }
        }
        let asset = VaultAsset {
            vault_asset_id: new_uuid(),
            vault_id: owned(vault_id),
            kind,
            name: owned(name),
            path,
            hash,
            tags,
            usage,
            metadata,
            created_at_ms: now_ms,
            updated_at_ms: now_ms,
        };
        let kept = replace_named(assets, &asset, name);
        Ok((asset, kept))
    }
}

/// `assets` without those named `name`, then `asset`.
fn replace_named(assets: Vec<VaultAsset>, asset: &VaultAsset, name: &str) -> (kept: Vec<VaultAsset>)
    ensures
        assets_view(kept@) == assets_view(assets@).filter(|x: AssetView| x.name != name@).push(asset@),
{
        let ghost av = assets_view(assets@);
        let mut kept: Vec<VaultAsset> = Vec::new();
        let assets = assets;
        assert(av.subrange(0, 0) =~= Seq::<AssetView>::empty());
        let mut i: usize = 0;
        while i < assets.len()
            invariant
                i <= assets.len(),
                av == assets_view(assets@),
                assets_view(kept@) == av.subrange(0, i as int).filter(|x: AssetView| x.name != name@),
            decreases assets.len() - i,
        {
            proof {
                assert(av[i as int] == assets@[i as int]@);
                assert(av.subrange(0, i + 1) =~= av.subrange(0, i as int).push(av[i as int]));
                av.subrange(0, i as int).lemma_filter_push(av[i as int], |x: AssetView| x.name != name@);
            }
            if !str_eq(assets[i].name.as_str(), name) {
                let c = copy_asset(&assets[i]);
                let ghost before = kept@;
                kept.push(c);
                assert(assets_view(kept@) =~= assets_view(before).push(c@));
            }
            i = i + 1;
        }
        assert(av.subrange(0, i as int) =~= av);
        let copy = copy_asset(asset);
        let ghost before = kept@;
        kept.push(copy);
        assert(assets_view(kept@) =~= assets_view(before).push(asset@));
        kept
}

/// Two optional strings with the same contents.
pub open spec fn opt_view_eq(a: Option<String>, b: Option<String>) -> bool {
    match (a, b) {
        (Some(x), Some(y)) => x@ == y@,
        (None, None) => true,
        _ => false,
    }
}

fn copy_usage(v: &Vec<VaultUsage>) -> (r: Vec<VaultUsage>)
    ensures
        r@ == v@,
{
    let mut r: Vec<VaultUsage> = Vec::new();
    let mut i: usize = 0;
    while i < v.len()
        invariant
            i <= v.len(),
            r@ == v@.subrange(0, i as int),
        decreases v.len() - i,
    {
        r.push(v[i]);
        i = i + 1;
    }
    assert(v@.subrange(0, i as int) =~= v@);
    r
}

fn copy_asset(a: &VaultAsset) -> (r: VaultAsset)
    ensures
        r@ == a@,
{
    VaultAsset {
        vault_asset_id: a.vault_asset_id.clone(),
        vault_id: a.vault_id.clone(),
        kind: a.kind,
        name: a.name.clone(),
        path: a.path.clone(),
        hash: a.hash.clone(),
        tags: copy_strings(&a.tags),
        usage: copy_usage(&a.usage),
        metadata: a.metadata.duplicate(),
        created_at_ms: a.created_at_ms,
        updated_at_ms: a.updated_at_ms,
    }
}

} // verus!
