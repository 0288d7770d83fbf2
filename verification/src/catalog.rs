//! The WOR catalogue: Windows versions with their builds, and the ESD
//! files of a build, read from the XML the catalogue server returns.
//!
//! The XML itself is parsed by `roxmltree`; its document is handed over as
//! a flat list of nodes in document order, each knowing how many nodes its
//! subtree spans, which is how `roxmltree` stores a document.

use vstd::prelude::*;
use crate::text::{
    chars_of, contains, parse_unsigned, parse_unsigned_str, split, split_ranges, str_contains,
    str_eq, string_of_range, trim, trim_range, Sep,
};

verus! {

// ---------------------------------------------------------------------------
// Catalogue data
// ---------------------------------------------------------------------------

/// A Windows version (such as `11`) and its builds.
#[derive(Debug, Clone)]
pub struct WindowsVersion {
    pub number: String,
    pub releases: Vec<Release>,
}

/// One build of a Windows version and its release date (`YYYYMMDD`).
#[derive(Debug, Clone)]
pub struct Release {
    pub build: String,
    pub date: String,
}

/// One downloadable ESD image of a build.
#[derive(Debug, Clone)]
pub struct EsdFile {
    pub filename: String,
    pub language_code: String,
    pub language: String,
    pub editions: Vec<String>,
    pub architecture: String,
    pub size: u64,
    pub sha256: String,
    pub url: String,
}

/// Mathematical value of a [`Release`].
pub struct ReleaseView {
    pub build: Seq<char>,
    pub date: Seq<char>,
}

/// Mathematical value of a [`WindowsVersion`].
pub struct WindowsVersionView {
    pub number: Seq<char>,
    pub releases: Seq<ReleaseView>,
}

/// Mathematical value of an [`EsdFile`].
pub struct EsdFileView {
    pub filename: Seq<char>,
    pub language_code: Seq<char>,
    pub language: Seq<char>,
    pub editions: Seq<Seq<char>>,
    pub architecture: Seq<char>,
    pub size: u64,
    pub sha256: Seq<char>,
    pub url: Seq<char>,
}

impl View for Release {
    type V = ReleaseView;

    open spec fn view(&self) -> ReleaseView {
        ReleaseView { build: self.build@, date: self.date@ }
    }
}

impl View for WindowsVersion {
    type V = WindowsVersionView;

    open spec fn view(&self) -> WindowsVersionView {
        WindowsVersionView {
            number: self.number@,
            releases: self.releases@.map_values(|r: Release| r@),
        }
    }
}

impl View for EsdFile {
    type V = EsdFileView;

    open spec fn view(&self) -> EsdFileView {
        EsdFileView {
            filename: self.filename@,
            language_code: self.language_code@,
            language: self.language@,
            editions: self.editions@.map_values(|e: String| e@),
            architecture: self.architecture@,
            size: self.size,
            sha256: self.sha256@,
            url: self.url@,
        }
    }
}

/// The label of the edition group an ESD file belongs to, decided by its
/// file name.
pub open spec fn spec_edition_label(filename: Seq<char>) -> Seq<char> {
    if contains(filename, "CLIENTBUSINESS_VOL"@) {
        "Business Volume (Enterprise / EnterpriseN)"@
    } else if contains(filename, "CLIENTCHINA"@) {
        "China Retail"@
    } else {
        "Consumer Retail (Pro / Home / Education / …)"@
    }
}

impl EsdFile {
    /// The label of the edition group this file belongs to.
    pub fn edition_label(&self) -> (label: String)
        ensures
            label@ == spec_edition_label(self.filename@),
    {
        let name = chars_of(self.filename.as_str());
        if str_contains(name.as_slice(), "CLIENTBUSINESS_VOL") {
            "Business Volume (Enterprise / EnterpriseN)".to_owned()
        } else if str_contains(name.as_slice(), "CLIENTCHINA") {
            "China Retail".to_owned()
        } else {
            "Consumer Retail (Pro / Home / Education / …)".to_owned()
        }
    }
}

// ---------------------------------------------------------------------------
// The XML document
// ---------------------------------------------------------------------------

/// An attribute of an XML element.
#[derive(Debug, Clone)]
pub struct XmlAttribute {
    /// The namespace URI, for a prefixed attribute.
    pub namespace: Option<String>,
    /// The local name.
    pub name: String,
    pub value: String,
}

/// One node of an XML document.
#[derive(Debug, Clone)]
pub struct XmlNode {
    /// The node is an element (not the root, text, a comment or an
    /// instruction).
    pub element: bool,
    /// The local name of an element; empty for other nodes.
    pub name: String,
    pub attributes: Vec<XmlAttribute>,
    /// The text of a text or comment node; for an element, the text of its
    /// first child when that child is text.
    pub text: Option<String>,
    /// The number of nodes of this node's subtree, itself included; they
    /// follow it in document order.
    pub subtree: usize,
}

/// Mathematical value of an [`XmlAttribute`].
pub struct XmlAttributeView {
    pub namespace: Option<Seq<char>>,
    pub name: Seq<char>,
    pub value: Seq<char>,
}

/// Mathematical value of an [`XmlNode`].
pub struct XmlNodeView {
    pub element: bool,
    pub name: Seq<char>,
    pub attributes: Seq<XmlAttributeView>,
    pub text: Option<Seq<char>>,
    pub subtree: nat,
}

impl View for XmlAttribute {
    type V = XmlAttributeView;

    open spec fn view(&self) -> XmlAttributeView {
        XmlAttributeView {
            namespace: match self.namespace {
                Some(n) => Some(n@),
                None => None,
            },
            name: self.name@,
            value: self.value@,
        }
    }
}

impl View for XmlNode {
    type V = XmlNodeView;

    open spec fn view(&self) -> XmlNodeView {
        XmlNodeView {
            element: self.element,
            name: self.name@,
            attributes: self.attributes@.map_values(|a: XmlAttribute| a@),
            text: match self.text {
                Some(t) => Some(t@),
                None => None,
            },
            subtree: self.subtree as nat,
        }
    }
}

/// The views of a list of nodes.
pub open spec fn nodes_view(nodes: Seq<XmlNode>) -> Seq<XmlNodeView> {
    nodes.map_values(|n: XmlNode| n@)
}

/// The nodes of the document `roxmltree` parses from `text`, in document
/// order starting with the root, or `None` where it rejects the text.
pub uninterp spec fn xml_document(text: Seq<char>) -> Option<Seq<XmlNodeView>>;

#[verifier::external_type_specification]
#[verifier::external_body]
pub struct ExXmlError(roxmltree::Error);

/// Parses `text` with `roxmltree::Document::parse` and lists the nodes of
/// the document (`Document::descendants`), each with what the catalogue
/// reads of it.
/// Trusted: the list is [`xml_document`] of the text, and an error comes
/// exactly where that is `None`; nothing more is stated of `roxmltree`.
#[verifier::external_body]
fn parse_xml(text: &str) -> (r: Result<Vec<XmlNode>, roxmltree::Error>)
    ensures
        match r {
            Ok(nodes) => xml_document(text@) == Some(nodes_view(nodes@)),
            Err(_) => xml_document(text@) is None,
        },
{
    let doc = roxmltree::Document::parse(text)?;
    Ok(doc.descendants().map(|n| XmlNode {
        element: n.is_element(),
        name: n.tag_name().name().to_string(),
        attributes: n.attributes().map(|a| XmlAttribute {
            namespace: a.namespace().map(|u| u.to_string()),
            name: a.name().to_string(),
            value: a.value().to_string(),
        }).collect(),
        text: n.text().map(|t| t.to_string()),
        subtree: n.descendants().len(),
    }).collect())
}

/// The node is an element named `tag` (`Node::has_tag_name` with a plain name).
pub open spec fn has_tag(n: XmlNodeView, tag: Seq<char>) -> bool {
    n.element && n.name == tag
}

/// The value of the first attribute among `attrs[i..]` named `name` without
/// a namespace.
pub open spec fn attribute_from(attrs: Seq<XmlAttributeView>, name: Seq<char>, i: int) -> Option<
    Seq<char>,
>
    decreases attrs.len() - i,
{
    if i < 0 || i >= attrs.len() {
        None
    } else if attrs[i].namespace is None && attrs[i].name == name {
        Some(attrs[i].value)
    } else {
        attribute_from(attrs, name, i + 1)
    }
}

/// `node.attribute(name).unwrap_or("")`.
pub open spec fn attribute_or_empty(n: XmlNodeView, name: Seq<char>) -> Seq<char> {
    match attribute_from(n.attributes, name, 0) {
        Some(v) => v,
        None => Seq::empty(),
    }
}

/// Where the subtree of node `i` ends (exclusive): `nodes[i..end]` are the
/// node and its descendants.
pub open spec fn subtree_end(nodes: Seq<XmlNodeView>, i: int) -> int {
    if i + nodes[i].subtree > nodes.len() {
        nodes.len() as int
    } else {
        i + nodes[i].subtree
    }
}

/// The first node among `nodes[i..hi]` that is an element named `tag`.
pub open spec fn first_tagged(nodes: Seq<XmlNodeView>, tag: Seq<char>, i: int, hi: int) -> Option<int>
    decreases hi - i,
{
    if i < 0 || i >= hi || i >= nodes.len() {
        None
    } else if has_tag(nodes[i], tag) {
        Some(i)
    } else {
        first_tagged(nodes, tag, i + 1, hi)
    }
}

/// The text of the first element named `tag` among node `i` and its
/// descendants, or the empty text.
pub open spec fn child_text_spec(nodes: Seq<XmlNodeView>, i: int, tag: Seq<char>) -> Seq<char> {
    match first_tagged(nodes, tag, i, subtree_end(nodes, i)) {
        Some(j) => match nodes[j].text {
            Some(t) => t,
            None => Seq::empty(),
        },
        None => Seq::empty(),
    }
}

} // verus!

verus! {

/// Exec counterpart of [`has_tag`].
fn has_tag_exec(n: &XmlNode, tag: &str) -> (b: bool)
    ensures
        b == has_tag(n@, tag@),
{
    n.element && str_eq(n.name.as_str(), tag)
}

/// `node.attribute(name).unwrap_or("")`.
fn attribute_exec(n: &XmlNode, name: &str) -> (v: String)
    ensures
        v@ == attribute_or_empty(n@, name@),
{
    let ghost attrs = n@.attributes;
    let mut i: usize = 0;
    while i < n.attributes.len()
        invariant
            attrs == n@.attributes,
            i <= n.attributes@.len(),
            attribute_from(attrs, name@, 0) == attribute_from(attrs, name@, i as int),
        decreases n.attributes@.len() - i,
    {
        let a = &n.attributes[i];
        assert(attrs[i as int] == a@);
        if a.namespace.is_none() && str_eq(a.name.as_str(), name) {
            return a.value.clone();
        }
        i = i + 1;
    }
    String::new()
}

/// Exec counterpart of [`subtree_end`].
fn subtree_end_exec(nodes: &[XmlNode], i: usize) -> (e: usize)
    requires
        i < nodes@.len(),
    ensures
        e == subtree_end(nodes_view(nodes@), i as int),
        i <= e <= nodes@.len(),
{
    let s = nodes[i].subtree;
    if s > nodes.len() - i {
        nodes.len()
    } else {
        i + s
    }
}

/// Exec counterpart of [`first_tagged`].
fn first_tagged_exec(nodes: &[XmlNode], tag: &str, lo: usize, hi: usize) -> (r: Option<usize>)
    requires
        lo <= hi <= nodes@.len(),
    ensures
        r matches Some(j) ==> first_tagged(nodes_view(nodes@), tag@, lo as int, hi as int) == Some(
            j as int,
        ) && lo <= j < hi,
        r is None ==> first_tagged(nodes_view(nodes@), tag@, lo as int, hi as int) is None,
{
    let ghost v = nodes_view(nodes@);
    let mut i = lo;
    while i < hi
        invariant
            lo <= i <= hi <= nodes@.len(),
            v == nodes_view(nodes@),
            first_tagged(v, tag@, lo as int, hi as int) == first_tagged(v, tag@, i as int, hi as int),
        decreases hi - i,
    {
        if has_tag_exec(&nodes[i], tag) {
            return Some(i);
        }
        i = i + 1;
    }
    None
}

/// The text of the first element named `tag` among node `i` and its
/// descendants, or the empty text.
fn child_text(nodes: &[XmlNode], i: usize, tag: &str) -> (t: String)
    requires
        i < nodes@.len(),
    ensures
        t@ == child_text_spec(nodes_view(nodes@), i as int, tag@),
{
    let end = subtree_end_exec(nodes, i);
    match first_tagged_exec(nodes, tag, i, end) {
        Some(j) => match &nodes[j].text {
            Some(t) => t.clone(),
            None => String::new(),
        },
        None => String::new(),
    }
}

// ---------------------------------------------------------------------------
// Versions
// ---------------------------------------------------------------------------

/// The release node `j` describes, if it is a `release` element with a
/// non-empty `build` attribute.
pub open spec fn release_at(nodes: Seq<XmlNodeView>, j: int) -> Seq<ReleaseView> {
    let build = attribute_or_empty(nodes[j], "build"@);
    if has_tag(nodes[j], "release"@) && build.len() > 0 {
        seq![ReleaseView { build, date: child_text_spec(nodes, j, "date"@) }]
    } else {
        Seq::empty()
    }
}

/// The releases among `nodes[lo..k]`, in document order.
pub open spec fn releases_upto(nodes: Seq<XmlNodeView>, lo: int, k: int) -> Seq<ReleaseView>
    decreases k - lo,
{
    if k <= lo {
        Seq::empty()
    } else {
        releases_upto(nodes, lo, k - 1) + release_at(nodes, k - 1)
    }
}

/// The version node `j` describes, if it is a `version` element with a
/// non-empty `number` attribute: its releases are those among its subtree.
pub open spec fn version_at(nodes: Seq<XmlNodeView>, j: int) -> Seq<WindowsVersionView> {
    let number = attribute_or_empty(nodes[j], "number"@);
    if has_tag(nodes[j], "version"@) && number.len() > 0 {
        seq![WindowsVersionView { number, releases: releases_upto(nodes, j, subtree_end(nodes, j)) }]
    } else {
        Seq::empty()
    }
}

/// The versions among `nodes[0..k]`, in document order.
pub open spec fn versions_upto(nodes: Seq<XmlNodeView>, k: int) -> Seq<WindowsVersionView>
    decreases k,
{
    if k <= 0 {
        Seq::empty()
    } else {
        versions_upto(nodes, k - 1) + version_at(nodes, k - 1)
    }
}

/// The versions a document lists: every `version` element under the root
/// (node 0) with a non-empty `number`, each with every `release` element of
/// its subtree that has a non-empty `build`.
pub open spec fn spec_versions(nodes: Seq<XmlNodeView>) -> Seq<WindowsVersionView> {
    if nodes.len() == 0 {
        Seq::empty()
    } else {
        versions_upto(nodes, subtree_end(nodes, 0))
    }
}

/// The releases among `nodes[lo..hi]`.
fn releases_in(nodes: &[XmlNode], lo: usize, hi: usize) -> (r: Vec<Release>)
    requires
        lo <= hi <= nodes@.len(),
    ensures
        r@.map_values(|x: Release| x@) == releases_upto(nodes_view(nodes@), lo as int, hi as int),
{
    let ghost v = nodes_view(nodes@);
    let mut r: Vec<Release> = Vec::new();
    let mut k = lo;
    while k < hi
        invariant
            lo <= k <= hi <= nodes@.len(),
            v == nodes_view(nodes@),
            r@.map_values(|x: Release| x@) == releases_upto(v, lo as int, k as int),
        decreases hi - k,
    {
        let n = &nodes[k];
        let ghost old_r = r@;
        if has_tag_exec(n, "release") {
            let build = attribute_exec(n, "build");
            if !build.as_str().is_empty() {
                let date = child_text(nodes, k, "date");
                r.push(Release { build, date });
                assert(r@.map_values(|x: Release| x@) =~= old_r.map_values(|x: Release| x@).push(
                    r@[r@.len() - 1]@,
                ));
            }
        }
        assert(r@.map_values(|x: Release| x@) =~= releases_upto(v, lo as int, k + 1));
        k = k + 1;
    }
    r
}

/// The versions a parsed versions document lists (see [`spec_versions`]).
pub fn versions_from_nodes(nodes: &[XmlNode]) -> (r: Vec<WindowsVersion>)
    ensures
        r@.map_values(|x: WindowsVersion| x@) == spec_versions(nodes_view(nodes@)),
{
    let ghost v = nodes_view(nodes@);
    let mut r: Vec<WindowsVersion> = Vec::new();
    if nodes.len() == 0 {
        assert(r@.map_values(|x: WindowsVersion| x@) =~= Seq::<WindowsVersionView>::empty());
        return r;
    }
    let end = subtree_end_exec(nodes, 0);
    let mut k: usize = 0;
    while k < end
        invariant
            k <= end <= nodes@.len(),
            end == subtree_end(v, 0),
            v == nodes_view(nodes@),
            r@.map_values(|x: WindowsVersion| x@) == versions_upto(v, k as int),
        decreases end - k,
    {
        let n = &nodes[k];
        let ghost old_r = r@;
        if has_tag_exec(n, "version") {
            let number = attribute_exec(n, "number");
            if !number.as_str().is_empty() {
                let e = subtree_end_exec(nodes, k);
                let releases = releases_in(nodes, k, e);
                r.push(WindowsVersion { number, releases });
                assert(r@.map_values(|x: WindowsVersion| x@) =~= old_r.map_values(
                    |x: WindowsVersion| x@,
                ).push(r@[r@.len() - 1]@));
            }
        }
        assert(r@.map_values(|x: WindowsVersion| x@) =~= versions_upto(v, k + 1));
        k = k + 1;
    }
    r
}

} // verus!

verus! {

// ---------------------------------------------------------------------------
// ESD files
// ---------------------------------------------------------------------------

/// The trimmed, non-empty pieces among `ps`, in order.
pub open spec fn kept_editions(ps: Seq<Seq<char>>) -> Seq<Seq<char>>
    decreases ps.len(),
{
    if ps.len() == 0 {
        Seq::empty()
    } else {
        let t = trim(ps.last());
        kept_editions(ps.drop_last()) + (if t.len() > 0 {
            seq![t]
        } else {
            Seq::empty()
        })
    }
}

/// The editions a comma-separated `Edition` text names: each piece
/// trimmed, the empty ones dropped.
pub open spec fn editions_of(e: Seq<char>) -> Seq<Seq<char>> {
    kept_editions(split(e, Sep::Char(',')))
}

/// Exec counterpart of [`editions_of`].
pub fn editions(e: &str) -> (r: Vec<String>)
    ensures
        r@.map_values(|s: String| s@) == editions_of(e@),
{
    let cs = chars_of(e);
    let n = cs.len();
    assert(cs@.subrange(0, n as int) =~= cs@);
    let pieces = split_ranges(cs.as_slice(), 0, n, Sep::Char(','));
    let ghost ps = split(cs@, Sep::Char(','));
    let mut r: Vec<String> = Vec::new();
    let mut j: usize = 0;
    while j < pieces.len()
        invariant
            n == cs@.len(),
            ps == split(cs@, Sep::Char(',')),
            pieces@.len() == ps.len(),
            forall|k: int|
                0 <= k < pieces@.len() ==> 0 <= (#[trigger] pieces@[k]).0 <= pieces@[k].1 <= n
                    && cs@.subrange(pieces@[k].0 as int, pieces@[k].1 as int) == ps[k],
            j <= pieces@.len(),
            r@.map_values(|s: String| s@) == kept_editions(ps.take(j as int)),
        decreases pieces@.len() - j,
    {
        let (a, b) = pieces[j];
        let (x, y) = trim_range(cs.as_slice(), a, b);
        assert(ps.take(j + 1).drop_last() =~= ps.take(j as int));
        assert(ps.take(j + 1).last() == ps[j as int]);
        let ghost old_r = r@;
        if x < y {
            let s = string_of_range(cs.as_slice(), x, y);
            r.push(s);
            assert(r@.map_values(|s: String| s@) =~= old_r.map_values(|s: String| s@).push(
                r@[r@.len() - 1]@,
            ));
        } else {
            assert(r@ == old_r);
        }
        j = j + 1;
    }
    assert(ps.take(pieces@.len() as int) =~= ps);
    r
}

/// The size a `Size` text gives: its decimal value, or 0 where it is not a
/// `u64`.
pub open spec fn size_of_text(t: Seq<char>) -> u64 {
    match parse_unsigned(t, 10, 0xFFFF_FFFF_FFFF_FFFF) {
        Ok(v) => v as u64,
        Err(_) => 0u64,
    }
}

/// The ESD file node `j` describes, if it is a `File` element whose
/// `FileName`, `FilePath` and `Architecture` texts are all non-empty.
pub open spec fn file_at(nodes: Seq<XmlNodeView>, j: int) -> Seq<EsdFileView> {
    let filename = child_text_spec(nodes, j, "FileName"@);
    let url = child_text_spec(nodes, j, "FilePath"@);
    let architecture = child_text_spec(nodes, j, "Architecture"@);
    if has_tag(nodes[j], "File"@) && filename.len() > 0 && url.len() > 0 && architecture.len() > 0 {
        seq![
            EsdFileView {
                filename,
                language_code: child_text_spec(nodes, j, "LanguageCode"@),
                language: child_text_spec(nodes, j, "Language"@),
                editions: editions_of(child_text_spec(nodes, j, "Edition"@)),
                architecture,
                size: size_of_text(child_text_spec(nodes, j, "Size"@)),
                sha256: child_text_spec(nodes, j, "Sha256"@),
                url,
            },
        ]
    } else {
        Seq::empty()
    }
}

/// The ESD files among `nodes[0..k]`, in document order.
pub open spec fn files_upto(nodes: Seq<XmlNodeView>, k: int) -> Seq<EsdFileView>
    decreases k,
{
    if k <= 0 {
        Seq::empty()
    } else {
        files_upto(nodes, k - 1) + file_at(nodes, k - 1)
    }
}

/// The ESD files a catalogue document lists: every `File` element under
/// the root with non-empty `FileName`, `FilePath` and `Architecture`.
pub open spec fn spec_catalog(nodes: Seq<XmlNodeView>) -> Seq<EsdFileView> {
    if nodes.len() == 0 {
        Seq::empty()
    } else {
        files_upto(nodes, subtree_end(nodes, 0))
    }
}

/// The ESD file node `k` describes, if any.
fn file_from_node(nodes: &[XmlNode], k: usize) -> (r: Option<EsdFile>)
    requires
        k < nodes@.len(),
    ensures
        match r {
            Some(f) => file_at(nodes_view(nodes@), k as int) == seq![f@],
            None => file_at(nodes_view(nodes@), k as int) == Seq::<EsdFileView>::empty(),
        },
{
    if !has_tag_exec(&nodes[k], "File") {
        return None;
    }
    let filename = child_text(nodes, k, "FileName");
    let language_code = child_text(nodes, k, "LanguageCode");
    let language = child_text(nodes, k, "Language");
    let architecture = child_text(nodes, k, "Architecture");
    let sha256 = child_text(nodes, k, "Sha256");
    let url = child_text(nodes, k, "FilePath");
    let edition_str = child_text(nodes, k, "Edition");
    let size_text = child_text(nodes, k, "Size");
    let size = match parse_unsigned_str(size_text.as_str(), 10, 0xFFFF_FFFF_FFFF_FFFF) {
        Ok(v) => v,
        Err(_) => 0,
    };
    if filename.as_str().is_empty() || url.as_str().is_empty() || architecture.as_str().is_empty() {
        return None;
    }
    let editions = editions(edition_str.as_str());
    let f = EsdFile { filename, language_code, language, editions, architecture, size, sha256, url };
    assert(file_at(nodes_view(nodes@), k as int) =~= seq![f@]);
    Some(f)
}

/// The ESD files a parsed catalogue document lists (see [`spec_catalog`]).
pub fn catalog_from_nodes(nodes: &[XmlNode]) -> (r: Vec<EsdFile>)
    ensures
        r@.map_values(|x: EsdFile| x@) == spec_catalog(nodes_view(nodes@)),
{
    let ghost v = nodes_view(nodes@);
    let mut r: Vec<EsdFile> = Vec::new();
    if nodes.len() == 0 {
        assert(r@.map_values(|x: EsdFile| x@) =~= Seq::<EsdFileView>::empty());
        return r;
    }
    let end = subtree_end_exec(nodes, 0);
    let mut k: usize = 0;
    while k < end
        invariant
            k <= end <= nodes@.len(),
            end == subtree_end(v, 0),
            v == nodes_view(nodes@),
            r@.map_values(|x: EsdFile| x@) == files_upto(v, k as int),
        decreases end - k,
    {
        let ghost old_r = r@;
        match file_from_node(nodes, k) {
            Some(f) => {
                r.push(f);
                assert(r@.map_values(|x: EsdFile| x@) =~= old_r.map_values(|x: EsdFile| x@).push(
                    r@[r@.len() - 1]@,
                ));
            },
            None => {},
        }
        assert(r@.map_values(|x: EsdFile| x@) =~= files_upto(v, k + 1));
        k = k + 1;
    }
    r
}

// ---------------------------------------------------------------------------
// Parsing the server's answers
// ---------------------------------------------------------------------------

/// Why a catalogue answer could not be read.
#[derive(Debug)]
pub enum CatalogError {
    /// The versions answer is not well-formed XML.
    Versions(roxmltree::Error),
    /// The catalogue answer is not well-formed XML.
    Catalog(roxmltree::Error),
}

/// The Windows versions and builds a versions answer lists.
pub fn parse_versions(xml: &str) -> (r: Result<Vec<WindowsVersion>, CatalogError>)
    ensures
        match r {
            Ok(v) => xml_document(xml@) matches Some(nodes) && v@.map_values(
                |x: WindowsVersion| x@,
            ) == spec_versions(nodes),
            Err(CatalogError::Versions(_)) => xml_document(xml@) is None,
            Err(CatalogError::Catalog(_)) => false,
        },
{
    match parse_xml(xml) {
        Ok(nodes) => Ok(versions_from_nodes(nodes.as_slice())),
        Err(e) => Err(CatalogError::Versions(e)),
    }
}

/// The ESD files a catalogue answer lists.
pub fn parse_catalog(xml: &str) -> (r: Result<Vec<EsdFile>, CatalogError>)
    ensures
        match r {
            Ok(v) => xml_document(xml@) matches Some(nodes) && v@.map_values(|x: EsdFile| x@)
                == spec_catalog(nodes),
            Err(CatalogError::Catalog(_)) => xml_document(xml@) is None,
            Err(CatalogError::Versions(_)) => false,
        },
{
    match parse_xml(xml) {
        Ok(nodes) => Ok(catalog_from_nodes(nodes.as_slice())),
        Err(e) => Err(CatalogError::Catalog(e)),
    }
}

} // verus!

verus! {

// ---------------------------------------------------------------------------
// What every answer satisfies
// ---------------------------------------------------------------------------

proof fn lemma_releases_built(nodes: Seq<XmlNodeView>, lo: int, k: int)
    ensures
        forall|j: int|
            0 <= j < releases_upto(nodes, lo, k).len() ==> (#[trigger] releases_upto(
                nodes,
                lo,
                k,
            )[j]).build.len() > 0,
    decreases k - lo,
{
    if k > lo {
        lemma_releases_built(nodes, lo, k - 1);
        let prev = releases_upto(nodes, lo, k - 1);
        let all = releases_upto(nodes, lo, k);
        assert forall|j: int| 0 <= j < all.len() implies (#[trigger] all[j]).build.len() > 0 by {
            if j < prev.len() {
                assert(all[j] == prev[j]);
            }
        }
    }
}

proof fn lemma_versions_named(nodes: Seq<XmlNodeView>, k: int)
    ensures
        forall|i: int|
            0 <= i < versions_upto(nodes, k).len() ==> (#[trigger] versions_upto(nodes, k)[i]).number.len()
                > 0 && forall|j: int|
                0 <= j < versions_upto(nodes, k)[i].releases.len() ==> (
                #[trigger] versions_upto(nodes, k)[i].releases[j]).build.len() > 0,
    decreases k,
{
    if k > 0 {
        lemma_versions_named(nodes, k - 1);
        lemma_releases_built(nodes, k - 1, subtree_end(nodes, k - 1));
        let prev = versions_upto(nodes, k - 1);
        let all = versions_upto(nodes, k);
        assert forall|i: int| 0 <= i < all.len() implies (#[trigger] all[i]).number.len() > 0
            && forall|j: int| 0 <= j < all[i].releases.len() ==> (
            #[trigger] all[i].releases[j]).build.len() > 0 by {
            if i < prev.len() {
                assert(all[i] == prev[i]);
            }
        }
    }
}

/// Every version a versions answer lists has a number, and every release
/// of it a build.
pub proof fn law_versions_are_named(nodes: Seq<XmlNodeView>)
    ensures
        forall|i: int|
            0 <= i < spec_versions(nodes).len() ==> (#[trigger] spec_versions(nodes)[i]).number.len()
                > 0 && forall|j: int|
                0 <= j < spec_versions(nodes)[i].releases.len() ==> (
                #[trigger] spec_versions(nodes)[i].releases[j]).build.len() > 0,
{
    if nodes.len() > 0 {
        lemma_versions_named(nodes, subtree_end(nodes, 0));
    }
}

proof fn lemma_files_complete(nodes: Seq<XmlNodeView>, k: int)
    ensures
        forall|i: int|
            0 <= i < files_upto(nodes, k).len() ==> {
                let f = #[trigger] files_upto(nodes, k)[i];
                f.filename.len() > 0 && f.url.len() > 0 && f.architecture.len() > 0
            },
    decreases k,
{
    if k > 0 {
        lemma_files_complete(nodes, k - 1);
        let prev = files_upto(nodes, k - 1);
        let all = files_upto(nodes, k);
        assert forall|i: int| 0 <= i < all.len() implies {
            let f = #[trigger] all[i];
            f.filename.len() > 0 && f.url.len() > 0 && f.architecture.len() > 0
        } by {
            if i < prev.len() {
                assert(all[i] == prev[i]);
            }
        }
    }
}

/// Every ESD file a catalogue answer lists has a file name, an address and
/// an architecture.
pub proof fn law_catalog_files_are_complete(nodes: Seq<XmlNodeView>)
    ensures
        forall|i: int|
            0 <= i < spec_catalog(nodes).len() ==> {
                let f = #[trigger] spec_catalog(nodes)[i];
                f.filename.len() > 0 && f.url.len() > 0 && f.architecture.len() > 0
            },
{
    if nodes.len() > 0 {
        lemma_files_complete(nodes, subtree_end(nodes, 0));
    }
}

} // verus!
