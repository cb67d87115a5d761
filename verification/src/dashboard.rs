//! The dashboard's data: forward traceability (rules with the code that
//! refers to them), reverse traceability (files with their covered code
//! units), their JSON forms, and the hash that tells one build from the next.

use vstd::prelude::*;
use vstd::string::StringSliceAdditionalSpecFns;
use crate::json::{
    joined, json_opt_string_of, json_string_of, lemma_append, lemma_joined_push,
    push_json_opt_string,
    push_json_string,
};
use crate::index::{Definition, Reference};
use crate::marker::RefVerb;
use crate::watcher::{glob_match_path, glob_verdict};
use crate::paths::{is_under, relative_chars, relative_to, under};
use crate::text::{
    chars_of, decimal, ends_with, lemma_lex_total, lemma_lex_transitive, lex_le, occurs_in,
    push_decimal, push_str, same_chars, starts_with, str_le, string_of,
};
use vstd::utf8::encode_utf8;

verus! {

/// The view of an optional string.
pub open spec fn opt_view(s: Option<String>) -> Option<Seq<char>> {
    match s {
        Some(text) => Some(text@),
        None => None,
    }
}

/// A value with a JSON form.
pub trait ToJson {
    /// The JSON text of the value.
    spec fn json(&self) -> Seq<char>;

    /// Appends the JSON text of the value.
    fn push_json(&self, out: &mut Vec<char>)
        ensures
            final(out)@ == old(out)@ + self.json(),
    ;
}

/// The JSON texts of a list of values.
pub open spec fn jsons<T: ToJson>(items: Seq<T>) -> Seq<Seq<char>> {
    items.map_values(|item: T| item.json())
}

/// The JSON array of a list of values, without its brackets.
pub open spec fn json_items<T: ToJson>(items: Seq<T>) -> Seq<char> {
    joined(jsons(items), ","@)
}

/// Appends the items of a JSON array, separated by commas.
pub fn push_json_items<T: ToJson>(out: &mut Vec<char>, items: &Vec<T>)
    ensures
        final(out)@ == old(out)@ + json_items(items@),
{
    let mut i: usize = 0;
    assert(jsons(items@.subrange(0, 0)) == Seq::<Seq<char>>::empty());
    while i < items.len()
        invariant
            i <= items@.len(),
            out@ == old(out)@ + json_items(items@.subrange(0, i as int)),
        decreases items@.len() - i,
    {
        proof {
            let done = items@.subrange(0, i as int);
            assert(jsons(items@.subrange(0, i + 1)) == jsons(done).push(items@[i as int].json()));
            lemma_joined_push(jsons(done), items@[i as int].json(), ","@);
        }
        if i > 0 {
            push_str(out, ",");
        }
        items[i].push_json(out);
        i += 1;
    }
    assert(items@.subrange(0, items@.len() as int) == items@);
}

/// A string as a JSON value of its own.
pub struct JsonText(pub String);

impl ToJson for JsonText {
    open spec fn json(&self) -> Seq<char> {
        json_string_of(self.0@)
    }

    fn push_json(&self, out: &mut Vec<char>) {
        push_json_string(out, self.0.as_str());
    }
}

/// One spec, as the project's configuration names it.
#[derive(Debug, Clone)]
pub struct ApiSpecInfo {
    pub name: String,
    /// Path to the spec's files, if local.
    pub source: Option<String>,
}

impl ToJson for ApiSpecInfo {
    open spec fn json(&self) -> Seq<char> {
        "{\"name\":"@ + json_string_of(self.name@) + ",\"source\":"@ + json_opt_string_of(
            opt_view(self.source),
        ) + "}"@
    }

    fn push_json(&self, out: &mut Vec<char>) {
        push_str(out, "{\"name\":");
        push_json_string(out, self.name.as_str());
        push_str(out, ",\"source\":");
        push_json_opt_string(out, &self.source);
        push_str(out, "}");
    }
}

/// Project configuration info.
#[derive(Debug, Clone)]
pub struct ApiConfig {
    pub project_root: String,
    pub specs: Vec<ApiSpecInfo>,
}

impl ToJson for ApiConfig {
    open spec fn json(&self) -> Seq<char> {
        "{\"projectRoot\":"@ + json_string_of(self.project_root@) + ",\"specs\":["@ + json_items(
            self.specs@,
        ) + "]}"@
    }

    fn push_json(&self, out: &mut Vec<char>) {
        push_str(out, "{\"projectRoot\":");
        push_json_string(out, self.project_root.as_str());
        push_str(out, ",\"specs\":[");
        push_json_items(out, &self.specs);
        push_str(out, "]}");
    }
}

/// A place in the code that refers to a rule.
#[derive(Debug, Clone)]
pub struct ApiCodeRef {
    pub file: String,
    pub line: usize,
}

impl ToJson for ApiCodeRef {
    open spec fn json(&self) -> Seq<char> {
        "{\"file\":"@ + json_string_of(self.file@) + ",\"line\":"@ + decimal(self.line as nat) + "}"@
    }

    fn push_json(&self, out: &mut Vec<char>) {
        push_str(out, "{\"file\":");
        push_json_string(out, self.file.as_str());
        push_str(out, ",\"line\":");
        push_decimal(out, self.line as u64);
        push_str(out, "}");
    }
}

/// An optional line number as JSON: the number, or `null`.
pub open spec fn json_opt_number(n: Option<usize>) -> Seq<char> {
    match n {
        Some(value) => decimal(value as nat),
        None => "null"@,
    }
}

/// A rule with the code that refers to it.
#[derive(Debug, Clone)]
pub struct ApiRule {
    pub id: String,
    pub text: Option<String>,
    pub status: Option<String>,
    pub level: Option<String>,
    pub source_file: Option<String>,
    pub source_line: Option<usize>,
    pub impl_refs: Vec<ApiCodeRef>,
    pub verify_refs: Vec<ApiCodeRef>,
    pub depends_refs: Vec<ApiCodeRef>,
}

impl ApiRule {
    /// The first half of the rule's JSON: what the spec says of it.
    pub open spec fn json_fields(&self) -> Seq<char> {
        "{\"id\":"@ + json_string_of(self.id@) + ",\"text\":"@ + json_opt_string_of(
            opt_view(self.text),
        ) + ",\"status\":"@ + json_opt_string_of(opt_view(self.status)) + ",\"level\":"@
            + json_opt_string_of(opt_view(self.level)) + ",\"sourceFile\":"@ + json_opt_string_of(
            opt_view(self.source_file),
        ) + ",\"sourceLine\":"@ + json_opt_number(self.source_line)
    }

    /// The second half of the rule's JSON: the code that refers to it.
    pub open spec fn json_refs(&self) -> Seq<char> {
        ",\"implRefs\":["@ + json_items(self.impl_refs@) + "],\"verifyRefs\":["@ + json_items(
            self.verify_refs@,
        ) + "],\"dependsRefs\":["@ + json_items(self.depends_refs@) + "]}"@
    }

    fn push_fields(&self, out: &mut Vec<char>)
        ensures
            final(out)@ == old(out)@ + self.json_fields(),
    {
        let ghost start = out@;
        let ghost k1 = "{\"id\":"@;
        push_str(out, "{\"id\":");
        push_json_string(out, self.id.as_str());
        let ghost a1 = k1 + json_string_of(self.id@);
        proof {
            lemma_append(start, k1, json_string_of(self.id@));
        }
        push_str(out, ",\"text\":");
        let ghost a2 = a1 + ",\"text\":"@;
        proof {
            lemma_append(start, a1, ",\"text\":"@);
        }
        push_json_opt_string(out, &self.text);
        let ghost a3 = a2 + json_opt_string_of(opt_view(self.text));
        proof {
            lemma_append(start, a2, json_opt_string_of(opt_view(self.text)));
        }
        push_str(out, ",\"status\":");
        let ghost a4 = a3 + ",\"status\":"@;
        proof {
            lemma_append(start, a3, ",\"status\":"@);
        }
        push_json_opt_string(out, &self.status);
        let ghost a5 = a4 + json_opt_string_of(opt_view(self.status));
        proof {
            lemma_append(start, a4, json_opt_string_of(opt_view(self.status)));
        }
        push_str(out, ",\"level\":");
        let ghost a6 = a5 + ",\"level\":"@;
        proof {
            lemma_append(start, a5, ",\"level\":"@);
        }
        push_json_opt_string(out, &self.level);
        let ghost a7 = a6 + json_opt_string_of(opt_view(self.level));
        proof {
            lemma_append(start, a6, json_opt_string_of(opt_view(self.level)));
        }
        push_str(out, ",\"sourceFile\":");
        let ghost a8 = a7 + ",\"sourceFile\":"@;
        proof {
            lemma_append(start, a7, ",\"sourceFile\":"@);
        }
        push_json_opt_string(out, &self.source_file);
        let ghost a9 = a8 + json_opt_string_of(opt_view(self.source_file));
        proof {
            lemma_append(start, a8, json_opt_string_of(opt_view(self.source_file)));
        }
        push_str(out, ",\"sourceLine\":");
        let ghost a10 = a9 + ",\"sourceLine\":"@;
        proof {
            lemma_append(start, a9, ",\"sourceLine\":"@);
        }
        match self.source_line {
            Some(n) => push_decimal(out, n as u64),
            None => push_str(out, "null"),
        }
        proof {
            lemma_append(start, a10, json_opt_number(self.source_line));
        }
    }

    fn push_refs(&self, out: &mut Vec<char>)
        ensures
            final(out)@ == old(out)@ + self.json_refs(),
    {
        push_str(out, ",\"implRefs\":[");
        push_json_items(out, &self.impl_refs);
        push_str(out, "],\"verifyRefs\":[");
        push_json_items(out, &self.verify_refs);
        push_str(out, "],\"dependsRefs\":[");
        push_json_items(out, &self.depends_refs);
        push_str(out, "]}");
    }
}

impl ToJson for ApiRule {
    open spec fn json(&self) -> Seq<char> {
        self.json_fields() + self.json_refs()
    }

    fn push_json(&self, out: &mut Vec<char>) {
        self.push_fields(out);
        self.push_refs(out);
    }
}

/// The rules of one spec.
#[derive(Debug, Clone)]
pub struct ApiSpecForward {
    pub name: String,
    pub rules: Vec<ApiRule>,
}

impl ToJson for ApiSpecForward {
    open spec fn json(&self) -> Seq<char> {
        "{\"name\":"@ + json_string_of(self.name@) + ",\"rules\":["@ + json_items(self.rules@)
            + "]}"@
    }

    fn push_json(&self, out: &mut Vec<char>) {
        push_str(out, "{\"name\":");
        push_json_string(out, self.name.as_str());
        push_str(out, ",\"rules\":[");
        push_json_items(out, &self.rules);
        push_str(out, "]}");
    }
}

/// Forward traceability: rules with their code references.
#[derive(Debug, Clone)]
pub struct ApiForwardData {
    pub specs: Vec<ApiSpecForward>,
}

impl ToJson for ApiForwardData {
    open spec fn json(&self) -> Seq<char> {
        "{\"specs\":["@ + json_items(self.specs@) + "]}"@
    }

    fn push_json(&self, out: &mut Vec<char>) {
        push_str(out, "{\"specs\":[");
        push_json_items(out, &self.specs);
        push_str(out, "]}");
    }
}

/// One file with its count of code units.
#[derive(Debug, Clone)]
pub struct ApiFileEntry {
    pub path: String,
    /// Number of code units in this file.
    pub total_units: usize,
    /// Number of code units with at least one rule reference.
    pub covered_units: usize,
}

impl ToJson for ApiFileEntry {
    open spec fn json(&self) -> Seq<char> {
        "{\"path\":"@ + json_string_of(self.path@) + ",\"totalUnits\":"@ + decimal(
            self.total_units as nat,
        ) + ",\"coveredUnits\":"@ + decimal(self.covered_units as nat) + "}"@
    }

    fn push_json(&self, out: &mut Vec<char>) {
        push_str(out, "{\"path\":");
        push_json_string(out, self.path.as_str());
        push_str(out, ",\"totalUnits\":");
        push_decimal(out, self.total_units as u64);
        push_str(out, ",\"coveredUnits\":");
        push_decimal(out, self.covered_units as u64);
        push_str(out, "}");
    }
}

/// Reverse traceability: the files with their coverage.
#[derive(Debug, Clone)]
pub struct ApiReverseData {
    /// Total code units across all files.
    pub total_units: usize,
    /// Code units with at least one rule reference.
    pub covered_units: usize,
    pub files: Vec<ApiFileEntry>,
}

impl ToJson for ApiReverseData {
    open spec fn json(&self) -> Seq<char> {
        "{\"totalUnits\":"@ + decimal(self.total_units as nat) + ",\"coveredUnits\":"@ + decimal(
            self.covered_units as nat,
        ) + ",\"files\":["@ + json_items(self.files@) + "]}"@
    }

    fn push_json(&self, out: &mut Vec<char>) {
        push_str(out, "{\"totalUnits\":");
        push_decimal(out, self.total_units as u64);
        push_str(out, ",\"coveredUnits\":");
        push_decimal(out, self.covered_units as u64);
        push_str(out, ",\"files\":[");
        push_json_items(out, &self.files);
        push_str(out, "]}");
    }
}

/// The JSON strings of a list of strings.
pub open spec fn json_strings(items: Seq<String>) -> Seq<Seq<char>> {
    items.map_values(|item: String| json_string_of(item@))
}

fn push_json_strings(out: &mut Vec<char>, items: &Vec<String>)
    ensures
        final(out)@ == old(out)@ + joined(json_strings(items@), ","@),
{
    let mut i: usize = 0;
    assert(json_strings(items@.subrange(0, 0)) == Seq::<Seq<char>>::empty());
    while i < items.len()
        invariant
            i <= items@.len(),
            out@ == old(out)@ + joined(json_strings(items@.subrange(0, i as int)), ","@),
        decreases items@.len() - i,
    {
        proof {
            let done = items@.subrange(0, i as int);
            assert(json_strings(items@.subrange(0, i + 1)) == json_strings(done).push(
                json_string_of(items@[i as int]@),
            ));
            lemma_joined_push(json_strings(done), json_string_of(items@[i as int]@), ","@);
        }
        if i > 0 {
            push_str(out, ",");
        }
        push_json_string(out, items[i].as_str());
        i += 1;
    }
    assert(items@.subrange(0, items@.len() as int) == items@);
}

/// A code unit of a file with the rules it refers to.
#[derive(Debug, Clone)]
pub struct ApiCodeUnit {
    pub kind: String,
    pub name: Option<String>,
    pub start_line: usize,
    pub end_line: usize,
    /// Rule references found in this code unit's comments.
    pub rule_refs: Vec<String>,
}

impl ToJson for ApiCodeUnit {
    open spec fn json(&self) -> Seq<char> {
        "{\"kind\":"@ + json_string_of(self.kind@) + ",\"name\":"@ + json_opt_string_of(
            opt_view(self.name),
        ) + ",\"startLine\":"@ + decimal(self.start_line as nat) + ",\"endLine\":"@ + decimal(
            self.end_line as nat,
        ) + ",\"ruleRefs\":["@ + joined(json_strings(self.rule_refs@), ","@) + "]}"@
    }

    fn push_json(&self, out: &mut Vec<char>) {
        push_str(out, "{\"kind\":");
        push_json_string(out, self.kind.as_str());
        push_str(out, ",\"name\":");
        push_json_opt_string(out, &self.name);
        push_str(out, ",\"startLine\":");
        push_decimal(out, self.start_line as u64);
        push_str(out, ",\"endLine\":");
        push_decimal(out, self.end_line as u64);
        push_str(out, ",\"ruleRefs\":[");
        push_json_strings(out, &self.rule_refs);
        push_str(out, "]}");
    }
}

/// A single file with full coverage details.
#[derive(Debug, Clone)]
pub struct ApiFileData {
    pub path: String,
    pub content: String,
    pub units: Vec<ApiCodeUnit>,
}

impl ToJson for ApiFileData {
    open spec fn json(&self) -> Seq<char> {
        "{\"path\":"@ + json_string_of(self.path@) + ",\"content\":"@ + json_string_of(
            self.content@,
        ) + ",\"units\":["@ + json_items(self.units@) + "]}"@
    }

    fn push_json(&self, out: &mut Vec<char>) {
        push_str(out, "{\"path\":");
        push_json_string(out, self.path.as_str());
        push_str(out, ",\"content\":");
        push_json_string(out, self.content.as_str());
        push_str(out, ",\"units\":[");
        push_json_items(out, &self.units);
        push_str(out, "]}");
    }
}

/// The content of a spec.
#[derive(Debug, Clone)]
pub struct ApiSpecData {
    pub name: String,
    /// Raw Markdown content.
    pub content: String,
    pub source_file: Option<String>,
}

impl ToJson for ApiSpecData {
    open spec fn json(&self) -> Seq<char> {
        "{\"name\":"@ + json_string_of(self.name@) + ",\"content\":"@ + json_string_of(
            self.content@,
        ) + ",\"sourceFile\":"@ + json_opt_string_of(opt_view(self.source_file)) + "}"@
    }

    fn push_json(&self, out: &mut Vec<char>) {
        push_str(out, "{\"name\":");
        push_json_string(out, self.name.as_str());
        push_str(out, ",\"content\":");
        push_json_string(out, self.content.as_str());
        push_str(out, ",\"sourceFile\":");
        push_json_opt_string(out, &self.source_file);
        push_str(out, "}");
    }
}

/// The JSON text of a value, as a string.
pub fn json_text<T: ToJson>(value: &T) -> (text: String)
    ensures
        text@ == value.json(),
{
    let mut out: Vec<char> = Vec::new();
    value.push_json(&mut out);
    string_of(out.as_slice())
}

impl ApiConfig {
    /// The value as JSON text.
    pub fn to_json(&self) -> (text: String)
        ensures
            text@ == self.json(),
    {
        json_text(self)
    }
}

impl ApiCodeRef {
    /// The value as JSON text.
    pub fn to_json(&self) -> (text: String)
        ensures
            text@ == self.json(),
    {
        json_text(self)
    }
}

impl ApiRule {
    /// The value as JSON text.
    pub fn to_json(&self) -> (text: String)
        ensures
            text@ == self.json(),
    {
        json_text(self)
    }
}

impl ApiForwardData {
    /// The value as JSON text.
    pub fn to_json(&self) -> (text: String)
        ensures
            text@ == self.json(),
    {
        json_text(self)
    }
}

impl ApiFileEntry {
    /// The value as JSON text.
    pub fn to_json(&self) -> (text: String)
        ensures
            text@ == self.json(),
    {
        json_text(self)
    }
}

impl ApiReverseData {
    /// The value as JSON text.
    pub fn to_json(&self) -> (text: String)
        ensures
            text@ == self.json(),
    {
        json_text(self)
    }
}

impl ApiCodeUnit {
    /// The value as JSON text.
    pub fn to_json(&self) -> (text: String)
        ensures
            text@ == self.json(),
    {
        json_text(self)
    }
}

impl ApiFileData {
    /// The value as JSON text.
    pub fn to_json(&self) -> (text: String)
        ensures
            text@ == self.json(),
    {
        json_text(self)
    }
}

impl ApiSpecData {
    /// The value as JSON text.
    pub fn to_json(&self) -> (text: String)
        ensures
            text@ == self.json(),
    {
        json_text(self)
    }
}

/// The FNV-1a hash of `bytes`, in 64 bits.
pub open spec fn fnv1a(bytes: Seq<u8>) -> u64
    decreases bytes.len(),
{
    if bytes.len() == 0 {
        0xcbf29ce484222325
    } else {
        (fnv1a(bytes.drop_last()) ^ (bytes.last() as u64)).wrapping_mul(0x100000001b3)
    }
}

/// The FNV-1a hash of the bytes of `s`, for change detection.
pub fn simple_hash(s: &str) -> (hash: u64)
    ensures
        hash == fnv1a(s.spec_bytes()),
{
    let bytes = s.as_bytes();
    let mut hash: u64 = 0xcbf29ce484222325;
    let mut i: usize = 0;
    while i < bytes.len()
        invariant
            i <= bytes@.len(),
            hash == fnv1a(bytes@.subrange(0, i as int)),
        decreases bytes@.len() - i,
    {
        let ghost upto = bytes@.subrange(0, i + 1);
        assert(upto.drop_last() == bytes@.subrange(0, i as int));
        assert(upto.last() == bytes@[i as int]);
        hash = hash ^ (bytes[i] as u64);
        hash = hash.wrapping_mul(0x100000001b3);
        i += 1;
    }
    assert(bytes@.subrange(0, bytes@.len() as int) == bytes@);
    hash
}

/// The hash that tells the content of one build from another: the hashes of
/// the two JSON documents, combined bit by bit.
pub open spec fn content_hash_of(forward: ApiForwardData, reverse: ApiReverseData) -> u64 {
    fnv1a(encode_utf8(forward.json())) ^ fnv1a(encode_utf8(reverse.json()))
}

/// The content hash of a build.
pub fn content_hash(forward: &ApiForwardData, reverse: &ApiReverseData) -> (hash: u64)
    ensures
        hash == content_hash_of(*forward, *reverse),
{
    let forward_json = forward.to_json();
    let reverse_json = reverse.to_json();
    simple_hash(forward_json.as_str()) ^ simple_hash(reverse_json.as_str())
}

/// Whether `path` is among the files that `pattern` names, where `verdict`
/// is what the glob matcher says of the two. The common shapes are decided
/// here: `**/*.rs` and `**/*.md` go by the extension; `dir/**/*.rs` and
/// `dir/**/*.md` by the directory and the extension; `dir/**` by the
/// directory; a pattern without `*` names itself. For any other pattern the
/// matcher decides, and one that it cannot read names nothing.
pub open spec fn simple_glob_matches(
    path: Seq<char>,
    pattern: Seq<char>,
    verdict: Option<bool>,
) -> bool {
    if pattern == "**/*.rs"@ {
        ".rs"@.is_suffix_of(path)
    } else if pattern == "**/*.md"@ {
        ".md"@.is_suffix_of(path)
    } else if "/**/*.rs"@.is_suffix_of(pattern) {
        is_under(path, pattern.subrange(0, pattern.len() - "/**/*.rs"@.len())) && ".rs"@.is_suffix_of(
            path,
        )
    } else if "/**/*.md"@.is_suffix_of(pattern) {
        is_under(path, pattern.subrange(0, pattern.len() - "/**/*.md"@.len())) && ".md"@.is_suffix_of(
            path,
        )
    } else if "/**"@.is_suffix_of(pattern) {
        is_under(path, pattern.subrange(0, pattern.len() - "/**"@.len()))
    } else if !pattern.contains('*') {
        path == pattern
    } else {
        verdict == Some(true)
    }
}

/// Whether the simple rules leave `pattern` to the glob matcher.
pub open spec fn needs_matcher(pattern: Seq<char>) -> bool {
    &&& pattern != "**/*.rs"@
    &&& pattern != "**/*.md"@
    &&& !"/**"@.is_suffix_of(pattern)
    &&& !"/**/*.rs"@.is_suffix_of(pattern)
    &&& !"/**/*.md"@.is_suffix_of(pattern)
    &&& pattern.contains('*')
}

fn has_star(pattern: &[char]) -> (yes: bool)
    ensures
        yes == pattern@.contains('*'),
{
    let mut i: usize = 0;
    while i < pattern.len()
        invariant
            i <= pattern@.len(),
            forall|k: int| 0 <= k < i ==> pattern@[k] != '*',
        decreases pattern@.len() - i,
    {
        if pattern[i] == '*' {
            return true;
        }
        i += 1;
    }
    false
}

fn without_suffix(pattern: &[char], suffix: &[char]) -> (head: Vec<char>)
    requires
        suffix@.is_suffix_of(pattern@),
    ensures
        head@ == pattern@.subrange(0, pattern@.len() - suffix@.len()),
{
    crate::text::slice_chars(pattern, 0, pattern.len() - suffix.len())
}

/// Whether the simple rules leave `pattern` to the glob matcher.
pub fn pattern_needs_matcher(pattern: &str) -> (yes: bool)
    ensures
        yes == needs_matcher(pattern@),
{
    let g = chars_of(pattern);
    if same_chars(g.as_slice(), chars_of("**/*.rs").as_slice()) {
        return false;
    }
    if same_chars(g.as_slice(), chars_of("**/*.md").as_slice()) {
        return false;
    }
    if ends_with(g.as_slice(), chars_of("/**/*.rs").as_slice()) {
        return false;
    }
    if ends_with(g.as_slice(), chars_of("/**/*.md").as_slice()) {
        return false;
    }
    if ends_with(g.as_slice(), chars_of("/**").as_slice()) {
        return false;
    }
    has_star(g.as_slice())
}

/// Whether `path` is among the files that `pattern` names, given what the
/// glob matcher says of the two.
pub fn glob_match_with(path: &str, pattern: &str, verdict: Option<bool>) -> (yes: bool)
    ensures
        yes == simple_glob_matches(path@, pattern@, verdict),
{
    let p = chars_of(path);
    let g = chars_of(pattern);
    let rs = chars_of(".rs");
    let md = chars_of(".md");
    if same_chars(g.as_slice(), chars_of("**/*.rs").as_slice()) {
        return ends_with(p.as_slice(), rs.as_slice());
    }
    if same_chars(g.as_slice(), chars_of("**/*.md").as_slice()) {
        return ends_with(p.as_slice(), md.as_slice());
    }
    let deep_rs = chars_of("/**/*.rs");
    if ends_with(g.as_slice(), deep_rs.as_slice()) {
        let rest = without_suffix(g.as_slice(), deep_rs.as_slice());
        return under(p.as_slice(), rest.as_slice()) && ends_with(p.as_slice(), rs.as_slice());
    }
    let deep_md = chars_of("/**/*.md");
    if ends_with(g.as_slice(), deep_md.as_slice()) {
        let rest = without_suffix(g.as_slice(), deep_md.as_slice());
        return under(p.as_slice(), rest.as_slice()) && ends_with(p.as_slice(), md.as_slice());
    }
    let deep = chars_of("/**");
    if ends_with(g.as_slice(), deep.as_slice()) {
        let rest = without_suffix(g.as_slice(), deep.as_slice());
        return under(p.as_slice(), rest.as_slice());
    }
    if !has_star(g.as_slice()) {
        return same_chars(p.as_slice(), g.as_slice());
    }
    match verdict {
        Some(hit) => hit,
        None => false,
    }
}

/// Whether `path` is among the files that `pattern` names. The glob matcher
/// is asked only where the simple rules leave the pattern to it.
pub fn glob_match(path: &str, pattern: &str) -> (yes: bool)
    ensures
        yes == simple_glob_matches(path@, pattern@, glob_verdict(pattern@, path@)),
{
    let verdict = if pattern_needs_matcher(pattern) {
        glob_match_path(pattern, path)
    } else {
        None
    };
    glob_match_with(path, pattern, verdict)
}

/// A reference to a rule, as the source scan found it.
#[derive(Debug, Clone)]
pub struct SourceRef {
    pub rule_id: String,
    pub file: String,
    pub line: usize,
    pub verb: RefVerb,
}

/// What a spec's manifest says of one rule.
#[derive(Debug, Clone)]
pub struct RuleInfo {
    pub id: String,
    pub text: Option<String>,
    pub status: Option<String>,
    pub level: Option<String>,
    pub source_file: Option<String>,
    pub source_line: Option<usize>,
}

/// A semantic chunk of a source file.
#[derive(Debug, Clone)]
pub struct CodeUnit {
    pub kind: String,
    pub name: Option<String>,
    pub start_line: usize,
    pub end_line: usize,
    /// The rules referred to anywhere inside the unit.
    pub rule_refs: Vec<String>,
}

/// The three lists in which a rule keeps its references.
#[derive(Debug, Clone, Copy, PartialEq, Eq, Structural)]
pub enum RefGroup {
    Impl,
    Verify,
    Depends,
}

/// The list that a reference with the given verb goes to: definitions count
/// as implementations, related code as dependent code.
pub open spec fn group_of(verb: RefVerb) -> RefGroup {
    match verb {
        RefVerb::Impl | RefVerb::Define => RefGroup::Impl,
        RefVerb::Verify => RefGroup::Verify,
        RefVerb::Depends | RefVerb::Related => RefGroup::Depends,
    }
}

/// A path as the dashboard shows it: relative to the project root where it
/// lies under it.
pub open spec fn shown_path(file: Seq<char>, root: Seq<char>) -> Seq<char> {
    match relative_to(file, root) {
        Some(rest) => rest,
        None => file,
    }
}

/// The file and line of each reference to rule `id` that goes to `group`, in
/// the order of the scan.
pub open spec fn refs_in_group(
    refs: Seq<SourceRef>,
    id: Seq<char>,
    group: RefGroup,
    root: Seq<char>,
) -> Seq<(Seq<char>, usize)>
    decreases refs.len(),
{
    if refs.len() == 0 {
        Seq::empty()
    } else {
        let head = refs_in_group(refs.drop_last(), id, group, root);
        let last = refs.last();
        if last.rule_id@ == id && group_of(last.verb) == group {
            head.push((shown_path(last.file@, root), last.line))
        } else {
            head
        }
    }
}

/// The file and line of each code reference.
pub open spec fn code_refs(refs: Seq<ApiCodeRef>) -> Seq<(Seq<char>, usize)> {
    refs.map_values(|r: ApiCodeRef| (r.file@, r.line))
}

fn group(verb: RefVerb) -> (g: RefGroup)
    ensures
        g == group_of(verb),
{
    match verb {
        RefVerb::Impl => RefGroup::Impl,
        RefVerb::Define => RefGroup::Impl,
        RefVerb::Verify => RefGroup::Verify,
        RefVerb::Depends => RefGroup::Depends,
        RefVerb::Related => RefGroup::Depends,
    }
}

fn shown(file: &str, root: &[char]) -> (path: String)
    ensures
        path@ == shown_path(file@, root@),
{
    let f = chars_of(file);
    match relative_chars(f.as_slice(), root) {
        Some(rest) => string_of(rest.as_slice()),
        None => string_of(f.as_slice()),
    }
}

fn opt_clone(s: &Option<String>) -> (copy: Option<String>)
    ensures
        copy == *s,
{
    match s {
        Some(text) => Some(text.clone()),
        None => None,
    }
}

/// One rule with the references that the scan found for it, each in its list
/// and shown relative to the project root.
pub fn forward_rule(info: &RuleInfo, refs: &Vec<SourceRef>, project_root: &str) -> (rule: ApiRule)
    ensures
        rule.id == info.id,
        rule.text == info.text,
        rule.status == info.status,
        rule.level == info.level,
        rule.source_file == info.source_file,
        rule.source_line == info.source_line,
        code_refs(rule.impl_refs@) == refs_in_group(refs@, info.id@, RefGroup::Impl, project_root@),
        code_refs(rule.verify_refs@) == refs_in_group(
            refs@,
            info.id@,
            RefGroup::Verify,
            project_root@,
        ),
        code_refs(rule.depends_refs@) == refs_in_group(
            refs@,
            info.id@,
            RefGroup::Depends,
            project_root@,
        ),
{
    let root = chars_of(project_root);
    let mut impl_refs: Vec<ApiCodeRef> = Vec::new();
    let mut verify_refs: Vec<ApiCodeRef> = Vec::new();
    let mut depends_refs: Vec<ApiCodeRef> = Vec::new();
    let mut i: usize = 0;
    assert(code_refs(impl_refs@) == Seq::<(Seq<char>, usize)>::empty());
    assert(code_refs(verify_refs@) == Seq::<(Seq<char>, usize)>::empty());
    assert(code_refs(depends_refs@) == Seq::<(Seq<char>, usize)>::empty());
    while i < refs.len()
        invariant
            i <= refs@.len(),
            root@ == project_root@,
            code_refs(impl_refs@) == refs_in_group(
                refs@.subrange(0, i as int),
                info.id@,
                RefGroup::Impl,
                project_root@,
            ),
            code_refs(verify_refs@) == refs_in_group(
                refs@.subrange(0, i as int),
                info.id@,
                RefGroup::Verify,
                project_root@,
            ),
            code_refs(depends_refs@) == refs_in_group(
                refs@.subrange(0, i as int),
                info.id@,
                RefGroup::Depends,
                project_root@,
            ),
        decreases refs@.len() - i,
    {
        let ghost upto = refs@.subrange(0, i + 1);
        assert(upto.drop_last() == refs@.subrange(0, i as int));
        assert(upto.last() == refs@[i as int]);
        let r = &refs[i];
        if r.rule_id == info.id {
            let code_ref = ApiCodeRef { file: shown(r.file.as_str(), root.as_slice()), line: r.line };
            match group(r.verb) {
                RefGroup::Impl => {
                    let ghost before = code_refs(impl_refs@);
                    impl_refs.push(code_ref);
                    assert(code_refs(impl_refs@) == before.push((code_ref.file@, code_ref.line)));
                },
                RefGroup::Verify => {
                    let ghost before = code_refs(verify_refs@);
                    verify_refs.push(code_ref);
                    assert(code_refs(verify_refs@) == before.push((code_ref.file@, code_ref.line)));
                },
                RefGroup::Depends => {
                    let ghost before = code_refs(depends_refs@);
                    depends_refs.push(code_ref);
                    assert(code_refs(depends_refs@) == before.push((code_ref.file@, code_ref.line)));
                },
            }
        }
        i += 1;
    }
    assert(refs@.subrange(0, refs@.len() as int) == refs@);
    ApiRule {
        id: info.id.clone(),
        text: opt_clone(&info.text),
        status: opt_clone(&info.status),
        level: opt_clone(&info.level),
        source_file: opt_clone(&info.source_file),
        source_line: info.source_line,
        impl_refs,
        verify_refs,
        depends_refs,
    }
}

/// A value that is sorted by a string of its own.
pub trait SortKey {
    /// The string by which the value is sorted.
    spec fn sort_key(&self) -> Seq<char>;

    /// The string by which the value is sorted.
    fn key(&self) -> (k: &str)
        ensures
            k@ == self.sort_key(),
    ;
}

impl SortKey for ApiRule {
    open spec fn sort_key(&self) -> Seq<char> {
        self.id@
    }

    fn key(&self) -> (k: &str) {
        self.id.as_str()
    }
}

impl SortKey for ApiFileEntry {
    open spec fn sort_key(&self) -> Seq<char> {
        self.path@
    }

    fn key(&self) -> (k: &str) {
        self.path.as_str()
    }
}

/// Whether the items stand in the order of their keys.
pub open spec fn sorted_by_key<T: SortKey>(items: Seq<T>) -> bool {
    forall|i: int, j: int|
        0 <= i < j < items.len() ==> lex_le(items[i].sort_key(), items[j].sort_key())
}

/// Sorts items by key: the same items, in the order of their keys.
pub fn sort_by_key<T: SortKey>(items: Vec<T>) -> (sorted: Vec<T>)
    ensures
        sorted_by_key(sorted@),
        sorted@.to_multiset() == items@.to_multiset(),
{
    broadcast use vstd::seq_lib::group_to_multiset_ensures;
    broadcast use vstd::multiset::group_multiset_axioms;

    let mut rest = items;
    let mut out: Vec<T> = Vec::new();
    assert(out@.to_multiset() =~= vstd::multiset::Multiset::<T>::empty());
    assert(out@.to_multiset().add(rest@.to_multiset()) =~= items@.to_multiset());
    while rest.len() > 0
        invariant
            sorted_by_key(out@),
            out@.to_multiset().add(rest@.to_multiset()) == items@.to_multiset(),
        decreases rest@.len(),
    {
        let ghost rest_before = rest@;
        let ghost out_before = out@;
        let item = rest.remove(0);
        let mut pos: usize = 0;
        while pos < out.len() && str_le(out[pos].key(), item.key())
            invariant
                pos <= out@.len(),
                out@ == out_before,
                forall|k: int| 0 <= k < pos ==> lex_le(out@[k].sort_key(), item.sort_key()),
            decreases out@.len() - pos,
        {
            pos += 1;
        }
        out.insert(pos, item);
        proof {
            assert(out@ == out_before.insert(pos as int, item));
            assert(rest@ == rest_before.remove(0));
            assert(rest_before.contains(item)) by {
                assert(rest_before[0] == item);
            }
            vstd::seq_lib::to_multiset_contains(rest_before, item);
            vstd::seq_lib::to_multiset_remove(rest_before, 0);
            vstd::seq_lib::to_multiset_insert(out_before, pos as int, item);
            assert(rest_before.to_multiset().count(item) > 0);
            assert(rest@.to_multiset() == rest_before.to_multiset().remove(item));
            assert(rest_before.to_multiset() =~= rest@.to_multiset().insert(item));
            assert(out@.to_multiset().add(rest@.to_multiset()) =~= out_before.to_multiset().add(
                rest_before.to_multiset(),
            ));
            assert forall|i: int, j: int| 0 <= i < j < out@.len() implies lex_le(
                out@[i].sort_key(),
                out@[j].sort_key(),
            ) by {
                if j == pos {
                    assert(out@[i] == out_before[i]);
                } else if i == pos {
                    assert(out@[j] == out_before[j - 1]);
                    lemma_lex_total(out_before[pos as int].sort_key(), item.sort_key());
                    if j - 1 > pos {
                        lemma_lex_transitive(
                            item.sort_key(),
                            out_before[pos as int].sort_key(),
                            out_before[j - 1].sort_key(),
                        );
                    }
                } else if j < pos {
                    assert(out@[i] == out_before[i] && out@[j] == out_before[j]);
                } else if i < pos {
                    assert(out@[i] == out_before[i] && out@[j] == out_before[j - 1]);
                } else {
                    assert(out@[i] == out_before[i - 1] && out@[j] == out_before[j - 1]);
                }
            }
        }
    }
    assert(rest@.to_multiset() =~= vstd::multiset::Multiset::<T>::empty());
    assert(out@.to_multiset().add(rest@.to_multiset()) =~= out@.to_multiset());
    out
}

/// The rules of one spec: each rule of its manifest with its references,
/// sorted by id.
pub fn build_spec_forward(
    name: &str,
    manifest: &Vec<RuleInfo>,
    refs: &Vec<SourceRef>,
    project_root: &str,
) -> (forward: ApiSpecForward)
    ensures
        forward.name@ == name@,
        forward.rules@.len() == manifest@.len(),
        sorted_by_key(forward.rules@),
        forall|i: int|
            0 <= i < forward.rules@.len() ==> comes_from(
                #[trigger] forward.rules@[i],
                manifest@,
                refs@,
                project_root@,
            ),
        forall|k: int|
            0 <= k < manifest@.len() ==> has_forward_of(
                forward.rules@,
                #[trigger] manifest@[k],
                refs@,
                project_root@,
            ),
{
    let mut rules: Vec<ApiRule> = Vec::new();
    let mut i: usize = 0;
    while i < manifest.len()
        invariant
            i <= manifest@.len(),
            rules@.len() == i,
            forall|k: int|
                0 <= k < i ==> is_forward_of(#[trigger] rules@[k], manifest@[k], refs@, project_root@),
        decreases manifest@.len() - i,
    {
        let rule = forward_rule(&manifest[i], refs, project_root);
        rules.push(rule);
        i += 1;
    }
    let ghost unsorted = rules@;
    let sorted = sort_by_key(rules);
    proof {
        broadcast use vstd::seq_lib::group_to_multiset_ensures;

        assert forall|i: int| 0 <= i < sorted@.len() implies comes_from(
            #[trigger] sorted@[i],
            manifest@,
            refs@,
            project_root@,
        ) by {
            let r = sorted@[i];
            assert(sorted@.contains(r));
            assert(sorted@.to_multiset().count(r) > 0);
            assert(unsorted.contains(r));
            let k = choose|k: int| 0 <= k < unsorted.len() && unsorted[k] == r;
            assert(is_forward_of(unsorted[k], manifest@[k], refs@, project_root@));
        }
        assert forall|k: int| 0 <= k < manifest@.len() implies has_forward_of(
            sorted@,
            #[trigger] manifest@[k],
            refs@,
            project_root@,
        ) by {
            let r = unsorted[k];
            assert(unsorted.contains(r));
            assert(unsorted.to_multiset().count(r) > 0);
            assert(sorted@.contains(r));
            let i = choose|i: int| 0 <= i < sorted@.len() && sorted@[i] == r;
            assert(is_forward_of(sorted@[i], manifest@[k], refs@, project_root@));
        }
        assert(sorted@.len() == unsorted.len()) by {
            assert(sorted@.to_multiset().len() == unsorted.to_multiset().len());
        }
    }
    ApiSpecForward { name: crate::text::string_of(chars_of(name).as_slice()), rules: sorted }
}

/// Whether `rule` was made from one of the manifest's entries.
pub open spec fn comes_from(
    rule: ApiRule,
    manifest: Seq<RuleInfo>,
    refs: Seq<SourceRef>,
    root: Seq<char>,
) -> bool {
    exists|k: int| 0 <= k < manifest.len() && is_forward_of(rule, #[trigger] manifest[k], refs, root)
}

/// Whether one of `rules` was made from the manifest entry `info`.
pub open spec fn has_forward_of(
    rules: Seq<ApiRule>,
    info: RuleInfo,
    refs: Seq<SourceRef>,
    root: Seq<char>,
) -> bool {
    exists|i: int| 0 <= i < rules.len() && is_forward_of(#[trigger] rules[i], info, refs, root)
}

/// Whether `rule` is what the manifest entry `info` and the scanned
/// references make of it.
pub open spec fn is_forward_of(
    rule: ApiRule,
    info: RuleInfo,
    refs: Seq<SourceRef>,
    root: Seq<char>,
) -> bool {
    &&& rule.id == info.id
    &&& rule.text == info.text
    &&& rule.status == info.status
    &&& rule.level == info.level
    &&& rule.source_file == info.source_file
    &&& rule.source_line == info.source_line
    &&& code_refs(rule.impl_refs@) == refs_in_group(refs, info.id@, RefGroup::Impl, root)
    &&& code_refs(rule.verify_refs@) == refs_in_group(refs, info.id@, RefGroup::Verify, root)
    &&& code_refs(rule.depends_refs@) == refs_in_group(refs, info.id@, RefGroup::Depends, root)
}

/// The number of code units that refer to at least one rule.
pub open spec fn covered_count(units: Seq<CodeUnit>) -> nat
    decreases units.len(),
{
    if units.len() == 0 {
        0
    } else {
        covered_count(units.drop_last()) + if units.last().rule_refs@.len() > 0 {
            1nat
        } else {
            0nat
        }
    }
}

/// The code units of one file.
#[derive(Debug, Clone)]
pub struct FileUnits {
    pub path: String,
    pub units: Vec<CodeUnit>,
}

/// Whether `entry` is the summary of `file`.
pub open spec fn is_entry_of(entry: ApiFileEntry, file: FileUnits, root: Seq<char>) -> bool {
    &&& entry.path@ == shown_path(file.path@, root)
    &&& entry.total_units == file.units@.len()
    &&& entry.covered_units == covered_count(file.units@)
}

/// The summary of one file: its path below the project root, the number of
/// its code units, and how many of them refer to a rule.
pub fn file_entry(file: &FileUnits, project_root: &str) -> (entry: ApiFileEntry)
    ensures
        is_entry_of(entry, *file, project_root@),
        entry.covered_units <= entry.total_units,
{
    let root = chars_of(project_root);
    let mut covered: usize = 0;
    let mut i: usize = 0;
    while i < file.units.len()
        invariant
            i <= file.units@.len(),
            covered == covered_count(file.units@.subrange(0, i as int)),
            covered <= i,
        decreases file.units@.len() - i,
    {
        let ghost upto = file.units@.subrange(0, i + 1);
        assert(upto.drop_last() == file.units@.subrange(0, i as int));
        assert(upto.last() == file.units@[i as int]);
        if file.units[i].rule_refs.len() > 0 {
            covered += 1;
        }
        i += 1;
    }
    assert(file.units@.subrange(0, file.units@.len() as int) == file.units@);
    ApiFileEntry {
        path: shown(file.path.as_str(), root.as_slice()),
        total_units: file.units.len(),
        covered_units: covered,
    }
}

/// The number of code units in all `files`.
pub open spec fn total_units_of(files: Seq<FileUnits>) -> nat
    decreases files.len(),
{
    if files.len() == 0 {
        0
    } else {
        total_units_of(files.drop_last()) + files.last().units@.len()
    }
}

/// Whether no path occurs twice among `files`.
pub open spec fn distinct_unit_paths(files: Seq<FileUnits>) -> bool {
    forall|a: int, b: int|
        0 <= a < b < files.len() ==> (#[trigger] files[a]).path@ != (#[trigger] files[b]).path@
}

/// The number of covered code units in all `files`.
pub open spec fn covered_units_of(files: Seq<FileUnits>) -> nat
    decreases files.len(),
{
    if files.len() == 0 {
        0
    } else {
        covered_units_of(files.drop_last()) + covered_count(files.last().units@)
    }
}

/// The total of a part of the files is at most the total of all.
pub proof fn lemma_total_units_monotonic(files: Seq<FileUnits>, upto: int)
    requires
        0 <= upto <= files.len(),
    ensures
        total_units_of(files.subrange(0, upto)) <= total_units_of(files),
    decreases files.len() - upto,
{
    if upto < files.len() {
        assert(files.subrange(0, upto + 1).drop_last() == files.subrange(0, upto));
        lemma_total_units_monotonic(files, upto + 1);
    } else {
        assert(files.subrange(0, upto) == files);
    }
}

/// Whether `entry` is the summary of one of `files`.
pub open spec fn summarizes_one(entry: ApiFileEntry, files: Seq<FileUnits>, root: Seq<char>) -> bool {
    exists|k: int| 0 <= k < files.len() && is_entry_of(entry, #[trigger] files[k], root)
}

/// Whether one of `entries` is the summary of `file`.
pub open spec fn has_entry_of(entries: Seq<ApiFileEntry>, file: FileUnits, root: Seq<char>) -> bool {
    exists|i: int| 0 <= i < entries.len() && is_entry_of(#[trigger] entries[i], file, root)
}

/// Reverse traceability: one entry for each file, sorted by path, and the
/// totals over all of them. No more units are covered than there are.
pub fn build_reverse(files: &Vec<FileUnits>, project_root: &str) -> (reverse: ApiReverseData)
    requires
        distinct_unit_paths(files@),
        total_units_of(files@) <= usize::MAX,
    ensures
        reverse.total_units == total_units_of(files@),
        reverse.covered_units == covered_units_of(files@),
        reverse.covered_units <= reverse.total_units,
        reverse.files@.len() == files@.len(),
        sorted_by_key(reverse.files@),
        forall|i: int|
            0 <= i < reverse.files@.len() ==> summarizes_one(
                #[trigger] reverse.files@[i],
                files@,
                project_root@,
            ),
        forall|k: int|
            0 <= k < files@.len() ==> has_entry_of(reverse.files@, #[trigger] files@[k], project_root@),
{
    let mut total: usize = 0;
    let mut covered: usize = 0;
    let mut entries: Vec<ApiFileEntry> = Vec::new();
    let mut i: usize = 0;
    while i < files.len()
        invariant
            i <= files@.len(),
            total_units_of(files@) <= usize::MAX,
            total == total_units_of(files@.subrange(0, i as int)),
            covered == covered_units_of(files@.subrange(0, i as int)),
            covered <= total,
            entries@.len() == i,
            forall|k: int| 0 <= k < i ==> is_entry_of(#[trigger] entries@[k], files@[k], project_root@),
        decreases files@.len() - i,
    {
        let ghost upto = files@.subrange(0, i + 1);
        assert(upto.drop_last() == files@.subrange(0, i as int));
        assert(upto.last() == files@[i as int]);
        proof {
            lemma_total_units_monotonic(files@, i + 1);
        }
        let entry = file_entry(&files[i], project_root);
        total = total + entry.total_units;
        covered = covered + entry.covered_units;
        entries.push(entry);
        i += 1;
    }
    assert(files@.subrange(0, files@.len() as int) == files@);
    let ghost unsorted = entries@;
    let sorted = sort_by_key(entries);
    proof {
        broadcast use vstd::seq_lib::group_to_multiset_ensures;

        assert forall|i: int| 0 <= i < sorted@.len() implies summarizes_one(
            #[trigger] sorted@[i],
            files@,
            project_root@,
        ) by {
            let e = sorted@[i];
            assert(sorted@.contains(e));
            assert(sorted@.to_multiset().count(e) > 0);
            assert(unsorted.contains(e));
            let k = choose|k: int| 0 <= k < unsorted.len() && unsorted[k] == e;
            assert(is_entry_of(unsorted[k], files@[k], project_root@));
        }
        assert forall|k: int| 0 <= k < files@.len() implies has_entry_of(
            sorted@,
            #[trigger] files@[k],
            project_root@,
        ) by {
            let e = unsorted[k];
            assert(unsorted.contains(e));
            assert(unsorted.to_multiset().count(e) > 0);
            assert(sorted@.contains(e));
            let i = choose|i: int| 0 <= i < sorted@.len() && sorted@[i] == e;
            assert(is_entry_of(sorted@[i], files@[k], project_root@));
        }
        assert(sorted@.len() == unsorted.len()) by {
            assert(sorted@.to_multiset().len() == unsorted.to_multiset().len());
        }
    }
    ApiReverseData { total_units: total, covered_units: covered, files: sorted }
}

/// The number of code units in the files among the first `upto` that lie
/// under `dir`.
pub open spec fn units_under(files: Seq<ApiFileEntry>, dir: Seq<char>, upto: int) -> nat
    decreases upto,
{
    if upto <= 0 {
        0
    } else {
        units_under(files, dir, upto - 1) + if is_under(files[upto - 1].path@, dir) {
            files[upto - 1].total_units as nat
        } else {
            0nat
        }
    }
}

/// The number of covered code units in the files among the first `upto`
/// that lie under `dir`, counted up to the units of each file.
pub open spec fn covered_under(files: Seq<ApiFileEntry>, dir: Seq<char>, upto: int) -> nat
    decreases upto,
{
    if upto <= 0 {
        0
    } else {
        covered_under(files, dir, upto - 1) + if is_under(files[upto - 1].path@, dir) {
            if files[upto - 1].covered_units <= files[upto - 1].total_units {
                files[upto - 1].covered_units as nat
            } else {
                files[upto - 1].total_units as nat
            }
        } else {
            0nat
        }
    }
}

/// The units under a directory are at most those of all files.
pub proof fn lemma_units_under_monotonic(files: Seq<ApiFileEntry>, dir: Seq<char>, upto: int, end: int)
    requires
        0 <= upto <= end,
    ensures
        units_under(files, dir, upto) <= units_under(files, dir, end),
    decreases end - upto,
{
    if upto < end {
        lemma_units_under_monotonic(files, dir, upto, end - 1);
    }
}

/// The coverage of a directory: the code units of the files under it, and
/// how many of them are covered. The empty path stands for the whole tree.
pub fn directory_coverage(files: &Vec<ApiFileEntry>, dir: &str) -> (entry: ApiFileEntry)
    requires
        units_under(files@, dir@, files@.len() as int) <= usize::MAX,
    ensures
        entry.path@ == dir@,
        entry.total_units == units_under(files@, dir@, files@.len() as int),
        entry.covered_units == covered_under(files@, dir@, files@.len() as int),
        entry.covered_units <= entry.total_units,
{
    let d = chars_of(dir);
    let mut total: usize = 0;
    let mut covered: usize = 0;
    let mut i: usize = 0;
    while i < files.len()
        invariant
            i <= files@.len(),
            d@ == dir@,
            units_under(files@, dir@, files@.len() as int) <= usize::MAX,
            total == units_under(files@, dir@, i as int),
            covered == covered_under(files@, dir@, i as int),
            covered <= total,
        decreases files@.len() - i,
    {
        proof {
            lemma_units_under_monotonic(files@, dir@, i + 1, files@.len() as int);
        }
        let path = chars_of(files[i].path.as_str());
        if under(path.as_slice(), d.as_slice()) {
            total = total + files[i].total_units;
            covered = covered + if files[i].covered_units <= files[i].total_units {
                files[i].covered_units
            } else {
                files[i].total_units
            };
        }
        i += 1;
    }
    ApiFileEntry { path: string_of(d.as_slice()), total_units: total, covered_units: covered }
}

/// Whether `info` says of the rule what its definition says.
pub open spec fn is_info_of(info: RuleInfo, d: Definition) -> bool {
    &&& info.id@ == d.id.rendered()
    &&& opt_view(info.text) == Some(d.text@)
    &&& info.status.is_none()
    &&& info.level.is_none()
    &&& opt_view(info.source_file) == Some(d.file@)
    &&& info.source_line == Some(d.line)
}

/// The manifest of a spec: what its definitions say of each rule, in their
/// order.
pub fn rule_infos(defs: &Vec<Definition>) -> (infos: Vec<RuleInfo>)
    ensures
        infos@.len() == defs@.len(),
        forall|k: int| 0 <= k < defs@.len() ==> is_info_of(#[trigger] infos@[k], defs@[k]),
{
    let mut infos: Vec<RuleInfo> = Vec::new();
    let mut k: usize = 0;
    while k < defs.len()
        invariant
            k <= defs@.len(),
            infos@.len() == k,
            forall|j: int| 0 <= j < k ==> is_info_of(#[trigger] infos@[j], defs@[j]),
        decreases defs@.len() - k,
    {
        let d = &defs[k];
        infos.push(
            RuleInfo {
                id: d.id.render(),
                text: Some(d.text.clone()),
                status: None,
                level: None,
                source_file: Some(d.file.clone()),
                source_line: Some(d.line),
            },
        );
        k += 1;
    }
    infos
}

/// Whether `r` is the reference `reference` as the dashboard keeps it.
pub open spec fn is_source_ref_of(r: SourceRef, reference: Reference) -> bool {
    &&& r.rule_id@ == reference.id.rendered()
    &&& r.file@ == reference.file@
    &&& r.line == reference.line
    &&& r.verb == reference.verb
}

/// The references among the first `upto` that carry `prefix`, by their
/// place.
pub open spec fn with_prefix(refs: Seq<Reference>, prefix: Seq<char>, upto: int) -> Seq<int>
    decreases upto,
{
    if upto <= 0 {
        Seq::empty()
    } else if refs[upto - 1].prefix@ == prefix {
        with_prefix(refs, prefix, upto - 1).push(upto - 1)
    } else {
        with_prefix(refs, prefix, upto - 1)
    }
}

/// Whether the `n`-th of `found` is the reference at the `n`-th of `places`.
pub open spec fn is_nth_source_ref(
    found: Seq<SourceRef>,
    refs: Seq<Reference>,
    places: Seq<int>,
    n: int,
) -> bool {
    0 <= places[n] < refs.len() && is_source_ref_of(found[n], refs[places[n]])
}

/// The references of a spec as the dashboard keeps them: those that carry
/// the spec's prefix, in the order of the scan.
pub fn source_refs(refs: &Vec<Reference>, prefix: &str) -> (found: Vec<SourceRef>)
    ensures
        found@.len() == with_prefix(refs@, prefix@, refs@.len() as int).len(),
        forall|n: int|
            0 <= n < found@.len() ==> #[trigger] is_nth_source_ref(
                found@,
                refs@,
                with_prefix(refs@, prefix@, refs@.len() as int),
                n,
            ),
{
    let mut found: Vec<SourceRef> = Vec::new();
    let mut i: usize = 0;
    while i < refs.len()
        invariant
            i <= refs@.len(),
            found@.len() == with_prefix(refs@, prefix@, i as int).len(),
            forall|n: int|
                0 <= n < found@.len() ==> #[trigger] is_nth_source_ref(
                    found@,
                    refs@,
                    with_prefix(refs@, prefix@, i as int),
                    n,
                ),
        decreases refs@.len() - i,
    {
        let ghost before = found@;
        let ghost places = with_prefix(refs@, prefix@, i as int);
        let r = &refs[i];
        if crate::text::str_same(r.prefix.as_str(), prefix) {
            found.push(
                SourceRef { rule_id: r.id.render(), file: r.file.clone(), line: r.line, verb: r.verb },
            );
        }
        proof {
            let next = with_prefix(refs@, prefix@, i + 1);
            assert forall|n: int| 0 <= n < found@.len() implies #[trigger] is_nth_source_ref(
                found@,
                refs@,
                next,
                n,
            ) by {
                if n < before.len() {
                    assert(is_nth_source_ref(before, refs@, places, n));
                    assert(found@[n] == before[n]);
                    assert(next[n] == places[n]);
                }
            }
        }
        i += 1;
    }
    found
}

/// The number of lines of a text: one more than its line feeds, or as many
/// where it ends with one; an empty text has one line.
pub open spec fn line_count(s: Seq<u8>) -> nat {
    let feeds = crate::spec_loader::newlines_before(s, s.len() as int);
    if s.len() == 0 {
        1
    } else if s.last() == 0x0a {
        feeds
    } else {
        feeds + 1
    }
}

/// The ids that the references name, as they are written.
pub open spec fn rendered_ids(refs: Seq<Reference>) -> Seq<Seq<char>> {
    refs.map_values(|r: Reference| r.id.rendered())
}

/// A file as a single code unit: the coarsest outline, for a file whose
/// structure is not known. The unit spans the file and refers to the rules
/// of all its references.
pub fn whole_file_unit(path: &str, text: &str, refs: &Vec<Reference>) -> (file: FileUnits)
    ensures
        file.path@ == path@,
        file.units@.len() == 1,
        file.units@[0].kind@ == "file"@,
        file.units@[0].name.is_none(),
        file.units@[0].start_line == 1,
        file.units@[0].end_line == line_count(text.spec_bytes()),
        crate::config::strs(file.units@[0].rule_refs@) == rendered_ids(refs@),
{
    let s = text.as_bytes();
    let feeds = crate::spec_loader::count_newlines(s, 0, s.len(), 0);
    proof {
        crate::spec_loader::lemma_newlines_bound(s@, s@.len() as int);
        if s@.len() > 0 {
            crate::spec_loader::lemma_newlines_bound(s@, s@.len() - 1);
        }
    }
    let lines = if s.len() == 0 {
        1
    } else if s[s.len() - 1] == 0x0a {
        feeds
    } else {
        feeds + 1
    };
    let mut ids: Vec<String> = Vec::new();
    let mut i: usize = 0;
    while i < refs.len()
        invariant
            i <= refs@.len(),
            ids@.len() == i,
            forall|k: int| 0 <= k < i ==> (#[trigger] ids@[k])@ == refs@[k].id.rendered(),
        decreases refs@.len() - i,
    {
        ids.push(refs[i].id.render());
        i += 1;
    }
    assert(crate::config::strs(ids@) == rendered_ids(refs@));
    let unit = CodeUnit {
        kind: crate::text::string_of(chars_of("file").as_slice()),
        name: None,
        start_line: 1,
        end_line: lines,
        rule_refs: ids,
    };
    let mut units: Vec<CodeUnit> = Vec::new();
    units.push(unit);
    FileUnits { path: path.to_owned(), units }
}

/// The body that tells a poller which version is current.
pub fn version_json(version: u64) -> (text: String)
    ensures
        text@ == "{\"version\":"@ + decimal(version as nat) + "}"@,
{
    let mut out: Vec<char> = Vec::new();
    push_str(&mut out, "{\"version\":");
    push_decimal(&mut out, version);
    push_str(&mut out, "}");
    string_of(out.as_slice())
}

} // verus!
