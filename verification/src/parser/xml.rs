//! A small XML reader, sufficient for keymap-export documents: tags with
//! attributes, nested child tags, text content, comments, and CDATA.

use vstd::prelude::*;

use crate::text::{
    find_char, find_from, find_name_end, find_non_ws, find_str, find_seq_from, lemma_find_from,
    lemma_find_seq_from, lemma_name_end_from, lemma_non_ws_from, matches_at, name_end_from,
    non_ws_from, str_matches_at, substring, trim, trim_of,
};

verus! {

/// One attribute of a tag.
#[derive(Debug, PartialEq, Eq)]
pub struct Attribute {
    pub name: String,
    pub value: String,
}

/// What stands between a tag's opening and closing: child tags or text.
#[derive(Debug, PartialEq, Eq)]
pub enum NodeContent {
    Tags(Vec<XmlTag>),
    Text(String),
}

/// One parsed tag: its name, its attributes, and its content, `None` for a
/// self-contained or empty tag.
#[derive(Debug, PartialEq, Eq)]
pub struct XmlTag {
    pub name: String,
    pub attributes: Vec<Attribute>,
    pub content: Option<NodeContent>,
}

/// The mathematical image of an [`Attribute`].
pub struct AttributeModel {
    pub name: Seq<char>,
    pub value: Seq<char>,
}

/// The mathematical image of a [`NodeContent`].
pub enum ContentModel {
    Tags(Seq<TagModel>),
    Text(Seq<char>),
}

/// The mathematical image of an [`XmlTag`].
pub struct TagModel {
    pub name: Seq<char>,
    pub attributes: Seq<AttributeModel>,
    pub content: Option<ContentModel>,
}

/// The attribute models of an attribute list.
pub open spec fn attribute_models_of(v: Seq<Attribute>) -> Seq<AttributeModel> {
    Seq::new(v.len(), |i: int| AttributeModel { name: v[i].name@, value: v[i].value@ })
}

/// The model of one tag, children included.
pub open spec fn tag_model(t: XmlTag) -> TagModel
    decreases t,
{
    TagModel {
        name: t.name@,
        attributes: attribute_models_of(t.attributes@),
        content: match t.content {
            None => None,
            Some(NodeContent::Text(s)) => Some(ContentModel::Text(s@)),
            Some(NodeContent::Tags(v)) => Some(ContentModel::Tags(tag_seq_models(v@))),
        },
    }
}

/// The models of a sequence of tags, in order.
pub open spec fn tag_seq_models(v: Seq<XmlTag>) -> Seq<TagModel>
    decreases v,
{
    if v.len() == 0 {
        Seq::empty()
    } else {
        seq![tag_model(v[0])] + tag_seq_models(v.drop_first())
    }
}

/// The tag models of a tag list.
pub open spec fn tag_models_of(v: Seq<XmlTag>) -> Seq<TagModel> {
    Seq::new(v.len(), |i: int| tag_model(v[i]))
}

pub proof fn lemma_tag_seq_models(v: Seq<XmlTag>)
    ensures
        tag_seq_models(v) == tag_models_of(v),
    decreases v,
{
    if v.len() > 0 {
        lemma_tag_seq_models(v.drop_first());
        assert forall|i: int| 0 <= i < v.len() implies tag_seq_models(v)[i] == tag_models_of(v)[i] by {
            if i > 0 {
                assert(v.drop_first()[i - 1] == v[i]);
                assert(tag_seq_models(v)[i] == tag_models_of(v.drop_first())[i - 1]);
            }
        }
        assert(tag_seq_models(v) =~= tag_models_of(v));
    } else {
        assert(tag_seq_models(v) =~= tag_models_of(v));
    }
}

// --- the grammar, as spec functions over the document's characters ---

/// One comment at `i`, leading whitespace skipped: `<!--` up to and past
/// the closing `-->`.
pub open spec fn comment_at(s: Seq<char>, i: int) -> Option<int> {
    let w = non_ws_from(s, i);
    if matches_at(s, w, seq!['<', '!', '-', '-']) {
        let e = find_seq_from(s, w + 4, seq!['-', '-', '>']);
        if e < s.len() {
            Some(e + 3)
        } else {
            None
        }
    } else {
        None
    }
}

/// A comment ends within the document: the closing `-->` lies inside it.
pub proof fn lemma_comment_at_in_range(s: Seq<char>, i: int)
    requires
        0 <= i <= s.len(),
    ensures
        match comment_at(s, i) {
            Some(j) => i < j <= s.len(),
            None => true,
        },
{
    lemma_non_ws_from(s, i);
    let w = non_ws_from(s, i);
    if matches_at(s, w, seq!['<', '!', '-', '-']) {
        let e = find_seq_from(s, w + 4, seq!['-', '-', '>']);
        lemma_find_seq_from(s, w + 4, seq!['-', '-', '>']);
        if e < s.len() {
            assert(e + seq!['-', '-', '>'].len() <= s.len());
        }
    }
}

/// The position after every comment from `i` on.
pub open spec fn after_comments(s: Seq<char>, i: int) -> int
    decreases s.len() - i,
{
    if 0 <= i <= s.len() {
        match comment_at(s, i) {
            Some(j) => {
                proof {
                    lemma_comment_at_in_range(s, i);
                }
                after_comments(s, j)
            },
            None => i,
        }
    } else {
        i
    }
}

pub proof fn lemma_after_comments_bounds(s: Seq<char>, i: int)
    requires
        0 <= i <= s.len(),
    ensures
        i <= after_comments(s, i) <= s.len(),
    decreases s.len() - i,
{
    lemma_comment_at_in_range(s, i);
    match comment_at(s, i) {
        Some(j) => {
            lemma_after_comments_bounds(s, j);
        },
        None => {},
    }
}

/// An XML name at `i`: a possibly empty run of name characters.
pub open spec fn name_at(s: Seq<char>, i: int) -> (Seq<char>, int) {
    let j = name_end_from(s, i);
    (s.subrange(i, j), j)
}

/// One attribute at `i`: whitespace, a name, whitespace, `=`, whitespace,
/// then a double-quoted value.
pub open spec fn attribute_at(s: Seq<char>, i: int) -> Option<(AttributeModel, int)> {
    let p1 = non_ws_from(s, i);
    let j = name_end_from(s, p1);
    let nm = s.subrange(p1, j);
    let p2 = non_ws_from(s, j);
    if p2 < s.len() && s[p2] == '=' {
        let p3 = non_ws_from(s, p2 + 1);
        if p3 < s.len() && s[p3] == '"' {
            let q = find_from(s, p3 + 1, '"');
            if q < s.len() {
                Some((AttributeModel { name: nm, value: s.subrange(p3 + 1, q) }, q + 1))
            } else {
                None
            }
        } else {
            None
        }
    } else {
        None
    }
}

pub proof fn lemma_attribute_at_bounds(s: Seq<char>, i: int)
    requires
        0 <= i <= s.len(),
    ensures
        match attribute_at(s, i) {
            Some((a, j)) => i < j <= s.len(),
            None => true,
        },
{
    lemma_non_ws_from(s, i);
    let p1 = non_ws_from(s, i);
    lemma_name_end_from(s, p1);
    let j = name_end_from(s, p1);
    lemma_non_ws_from(s, j);
    let p2 = non_ws_from(s, j);
    if p2 < s.len() && s[p2] == '=' {
        lemma_non_ws_from(s, p2 + 1);
        let p3 = non_ws_from(s, p2 + 1);
        if p3 < s.len() && s[p3] == '"' {
            lemma_find_from(s, p3 + 1, '"');
        }
    }
}

/// The attributes from `i` on, as many as parse.
pub open spec fn attributes_at(s: Seq<char>, i: int) -> (Seq<AttributeModel>, int)
    decreases s.len() - i,
{
    if 0 <= i <= s.len() {
        match attribute_at(s, i) {
            Some((a, j)) => {
                proof {
                    lemma_attribute_at_bounds(s, i);
                }
                let (rest, end) = attributes_at(s, j);
                (seq![a] + rest, end)
            },
            None => (Seq::empty(), i),
        }
    } else {
        (Seq::empty(), i)
    }
}

pub proof fn lemma_attributes_at_bounds(s: Seq<char>, i: int)
    requires
        0 <= i <= s.len(),
    ensures
        i <= attributes_at(s, i).1 <= s.len(),
    decreases s.len() - i,
{
    lemma_attribute_at_bounds(s, i);
    match attribute_at(s, i) {
        Some((a, j)) => {
            lemma_attributes_at_bounds(s, j);
        },
        None => {},
    }
}

/// A closing tag at `i`: whitespace, an optional `<`, `/`, a name (not held
/// against the opening name), whitespace, `>`, then trailing whitespace.
pub open spec fn closing_at(s: Seq<char>, i: int) -> Option<int> {
    let w = non_ws_from(s, i);
    let o = if w < s.len() && s[w] == '<' {
        w + 1
    } else {
        w
    };
    if o < s.len() && s[o] == '/' {
        let j = name_end_from(s, o + 1);
        let g = non_ws_from(s, j);
        if g < s.len() && s[g] == '>' {
            Some(non_ws_from(s, g + 1))
        } else {
            None
        }
    } else {
        None
    }
}

pub proof fn lemma_closing_at_bounds(s: Seq<char>, i: int)
    requires
        0 <= i <= s.len(),
    ensures
        match closing_at(s, i) {
            Some(j) => i < j <= s.len(),
            None => true,
        },
{
    lemma_non_ws_from(s, i);
    let w = non_ws_from(s, i);
    let o = if w < s.len() && s[w] == '<' {
        w + 1
    } else {
        w
    };
    if o < s.len() && s[o] == '/' {
        lemma_name_end_from(s, o + 1);
        let j = name_end_from(s, o + 1);
        lemma_non_ws_from(s, j);
        let g = non_ws_from(s, j);
        if g < s.len() && s[g] == '>' {
            lemma_non_ws_from(s, g + 1);
        }
    }
}

/// One tag at `i`: comments, whitespace, `<`, a name, attributes, then one
/// of the four content forms, tried in order: child tags between `>` and a
/// closing tag; a self-contained `/>`; an empty `>` closing pair; or text
/// up to the closing tag.
pub open spec fn tag_at(s: Seq<char>, i: int) -> Option<(TagModel, int)>
    decreases s.len() - i, 1int,
{
    if 0 <= i <= s.len() {
        let c0 = after_comments(s, i);
        proof {
            lemma_after_comments_bounds(s, i);
        }
        let w = non_ws_from(s, c0);
        proof {
            lemma_non_ws_from(s, c0);
        }
        if w < s.len() && s[w] == '<' {
            let (nm, p) = name_at(s, w + 1);
            proof {
                lemma_name_end_from(s, w + 1);
            }
            let (attrs, q) = attributes_at(s, p);
            proof {
                lemma_attributes_at_bounds(s, p);
            }
            let e = non_ws_from(s, q);
            proof {
                lemma_non_ws_from(s, q);
            }
            if e < s.len() && s[e] == '>' {
                let c1 = after_comments(s, e + 1);
                proof {
                    lemma_after_comments_bounds(s, e + 1);
                }
                let (kids, r) = children_at(s, c1);
                if kids.len() >= 1 && closing_at(s, r) is Some {
                    Some(
                        (
                            TagModel { name: nm, attributes: attrs, content: Some(
                                ContentModel::Tags(kids),
                            ) },
                            closing_at(s, r)->Some_0,
                        ),
                    )
                } else if closing_at(s, e + 1) is Some {
                    Some(
                        (
                            TagModel { name: nm, attributes: attrs, content: None },
                            closing_at(s, e + 1)->Some_0,
                        ),
                    )
                } else {
                    let t0 = non_ws_from(s, e + 1);
                    let tx = find_from(s, t0, '<');
                    proof {
                        lemma_non_ws_from(s, e + 1);
                        lemma_find_from(s, t0, '<');
                    }
                    match closing_at(s, tx) {
                        Some(z) => Some(
                            (
                                TagModel { name: nm, attributes: attrs, content: Some(
                                    ContentModel::Text(trim_of(s.subrange(t0, tx))),
                                ) },
                                z,
                            ),
                        ),
                        None => None,
                    }
                }
            } else if e + 2 <= s.len() && s[e] == '/' && s[e + 1] == '>' {
                Some((TagModel { name: nm, attributes: attrs, content: None }, e + 2))
            } else {
                None
            }
        } else {
            None
        }
    } else {
        None
    }
}

/// The child tags from `i` on, as many as parse, each consuming input.
pub open spec fn children_at(s: Seq<char>, i: int) -> (Seq<TagModel>, int)
    decreases s.len() - i, 2int,
{
    if 0 <= i <= s.len() {
        match tag_at(s, i) {
            Some((t, z)) => {
                if i < z <= s.len() {
                    let (rest, end) = children_at(s, z);
                    (seq![t] + rest, end)
                } else {
                    (seq![t], z)
                }
            },
            None => (Seq::empty(), i),
        }
    } else {
        (Seq::empty(), i)
    }
}

/// A parsed tag both advances the position and stays in the document.
pub proof fn lemma_tag_at_bounds(s: Seq<char>, i: int)
    requires
        0 <= i <= s.len(),
    ensures
        match tag_at(s, i) {
            Some((t, z)) => i < z <= s.len(),
            None => true,
        },
    decreases s.len() - i, 1int,
{
    let c0 = after_comments(s, i);
    lemma_after_comments_bounds(s, i);
    let w = non_ws_from(s, c0);
    lemma_non_ws_from(s, c0);
    if w < s.len() && s[w] == '<' {
        let (nm, p) = name_at(s, w + 1);
        lemma_name_end_from(s, w + 1);
        let (attrs, q) = attributes_at(s, p);
        lemma_attributes_at_bounds(s, p);
        let e = non_ws_from(s, q);
        lemma_non_ws_from(s, q);
        if e < s.len() && s[e] == '>' {
            let c1 = after_comments(s, e + 1);
            lemma_after_comments_bounds(s, e + 1);
            let (kids, r) = children_at(s, c1);
            lemma_children_at_bounds(s, c1);
            lemma_closing_at_bounds(s, r);
            lemma_closing_at_bounds(s, e + 1);
            let t0 = non_ws_from(s, e + 1);
            lemma_non_ws_from(s, e + 1);
            let tx = find_from(s, t0, '<');
            lemma_find_from(s, t0, '<');
            lemma_closing_at_bounds(s, tx);
        }
    }
}

pub proof fn lemma_children_at_bounds(s: Seq<char>, i: int)
    requires
        0 <= i <= s.len(),
    ensures
        i <= children_at(s, i).1 <= s.len(),
    decreases s.len() - i, 2int,
{
    lemma_tag_at_bounds(s, i);
    match tag_at(s, i) {
        Some((t, z)) => {
            if i < z <= s.len() {
                lemma_children_at_bounds(s, z);
            }
        },
        None => {},
    }
}

/// A whole document: a single tag, preceded by whitespace or comments.
pub open spec fn xml_document(s: Seq<char>) -> Option<TagModel> {
    match tag_at(s, 0) {
        Some((t, z)) => Some(t),
        None => None,
    }
}

// --- executable parser ---

/// Skip one comment at `from`, if one stands there.
fn skip_comment(s: &str, from: usize) -> (r: Option<usize>)
    requires
        from <= s@.len(),
    ensures
        match r {
            Some(j) => comment_at(s@, from as int) == Some(j as int) && from < j <= s@.len(),
            None => comment_at(s@, from as int) is None,
        },
{
    proof {
        reveal_strlit("<!--");
        reveal_strlit("-->");
        assert("<!--"@ =~= seq!['<', '!', '-', '-']);
        assert("-->"@ =~= seq!['-', '-', '>']);
        lemma_comment_at_in_range(s@, from as int);
    }
    let n = s.unicode_len();
    let w = find_non_ws(s, from);
    if str_matches_at(s, w, "<!--") {
        let e = find_str(s, w + 4, "-->");
        if e < n {
            Some(e + 3)
        } else {
            None
        }
    } else {
        None
    }
}

/// Skip every comment from `from` on.
fn skip_comments(s: &str, from: usize) -> (r: usize)
    requires
        from <= s@.len(),
    ensures
        r as int == after_comments(s@, from as int),
        from <= r <= s@.len(),
{
    let mut i: usize = from;
    loop
        invariant
            from <= i <= s@.len(),
            after_comments(s@, from as int) == after_comments(s@, i as int),
        decreases s@.len() - i,
    {
        match skip_comment(s, i) {
            Some(j) => {
                i = j;
            },
            None => {
                return i;
            },
        }
    }
}

/// Parse one attribute at `from`, if one stands there.
pub fn parse_attribute(s: &str, from: usize) -> (r: Option<(Attribute, usize)>)
    requires
        from <= s@.len(),
    ensures
        match r {
            Some((a, j)) => attribute_at(s@, from as int) == Some(
                (AttributeModel { name: a.name@, value: a.value@ }, j as int),
            ) && from < j <= s@.len(),
            None => attribute_at(s@, from as int) is None,
        },
{
    proof {
        lemma_attribute_at_bounds(s@, from as int);
    }
    let n = s.unicode_len();
    let p1 = find_non_ws(s, from);
    let j = find_name_end(s, p1);
    let p2 = find_non_ws(s, j);
    if p2 < n && s.get_char(p2) == '=' {
        let p3 = find_non_ws(s, p2 + 1);
        if p3 < n && s.get_char(p3) == '"' {
            let q = find_char(s, p3 + 1, '"');
            if q < n {
                let a = Attribute { name: substring(s, p1, j), value: substring(s, p3 + 1, q) };
                Some((a, q + 1))
            } else {
                None
            }
        } else {
            None
        }
    } else {
        None
    }
}

/// Parse the attributes from `from` on, as many as stand there.
fn parse_attributes(s: &str, from: usize) -> (r: (Vec<Attribute>, usize))
    requires
        from <= s@.len(),
    ensures
        attribute_models_of(r.0@) == attributes_at(s@, from as int).0,
        r.1 as int == attributes_at(s@, from as int).1,
        from <= r.1 <= s@.len(),
{
    let mut out: Vec<Attribute> = Vec::new();
    let mut i: usize = from;
    loop
        invariant
            from <= i <= s@.len(),
            attributes_at(s@, from as int).0 == attribute_models_of(out@) + attributes_at(
                s@,
                i as int,
            ).0,
            attributes_at(s@, from as int).1 == attributes_at(s@, i as int).1,
        decreases s@.len() - i,
    {
        let ghost old_out = out@;
        match parse_attribute(s, i) {
            Some((a, j)) => {
                let ghost am = AttributeModel { name: a.name@, value: a.value@ };
                out.push(a);
                proof {
                    let rest = attributes_at(s@, j as int).0;
                    assert(attributes_at(s@, i as int).0 == seq![am] + rest);
                    assert(attribute_models_of(old_out) + (seq![am] + rest)
                        =~= attribute_models_of(out@) + rest);
                }
                i = j;
            },
            None => {
                proof {
                    assert(attributes_at(s@, i as int).0 =~= Seq::<AttributeModel>::empty());
                    assert(attribute_models_of(old_out) + attributes_at(s@, i as int).0
                        =~= attribute_models_of(out@));
                }
                return (out, i);
            },
        }
    }
}

/// Parse a closing tag at `from`, if one stands there; yields the position
/// after it and its trailing whitespace.
fn parse_closing(s: &str, from: usize) -> (r: Option<usize>)
    requires
        from <= s@.len(),
    ensures
        match r {
            Some(j) => closing_at(s@, from as int) == Some(j as int) && from < j <= s@.len(),
            None => closing_at(s@, from as int) is None,
        },
{
    proof {
        lemma_closing_at_bounds(s@, from as int);
    }
    let n = s.unicode_len();
    let w = find_non_ws(s, from);
    let o = if w < n && s.get_char(w) == '<' {
        w + 1
    } else {
        w
    };
    if o < n && s.get_char(o) == '/' {
        let j = find_name_end(s, o + 1);
        let g = find_non_ws(s, j);
        if g < n && s.get_char(g) == '>' {
            Some(find_non_ws(s, g + 1))
        } else {
            None
        }
    } else {
        None
    }
}

/// Parse one tag at `from`, if one stands there.
pub fn parse_xml_tag(s: &str, from: usize) -> (r: Option<(XmlTag, usize)>)
    requires
        from <= s@.len(),
    ensures
        match r {
            Some((t, z)) => tag_at(s@, from as int) == Some((tag_model(t), z as int)) && from < z
                <= s@.len(),
            None => tag_at(s@, from as int) is None,
        },
    decreases s@.len() - from, 1int,
{
    proof {
        lemma_tag_at_bounds(s@, from as int);
    }
    let n = s.unicode_len();
    let c0 = skip_comments(s, from);
    let w = find_non_ws(s, c0);
    if w < n && s.get_char(w) == '<' {
        let p = find_name_end(s, w + 1);
        let name = substring(s, w + 1, p);
        let (attributes, q) = parse_attributes(s, p);
        let e = find_non_ws(s, q);
        if e < n && s.get_char(e) == '>' {
            let c1 = skip_comments(s, e + 1);
            let (kids, r) = parse_children(s, c1);
            if kids.len() >= 1 {
                match parse_closing(s, r) {
                    Some(z) => {
                        let t = XmlTag { name, attributes, content: Some(NodeContent::Tags(kids)) };
                        proof {
                            lemma_tag_seq_models(t.content->Some_0->Tags_0@);
                        }
                        return Some((t, z));
                    },
                    None => {},
                }
            }
            match parse_closing(s, e + 1) {
                Some(z) => {
                    let t = XmlTag { name, attributes, content: None };
                    return Some((t, z));
                },
                None => {},
            }
            let t0 = find_non_ws(s, e + 1);
            let tx = find_char(s, t0, '<');
            match parse_closing(s, tx) {
                Some(z) => {
                    let raw = s.substring_char(t0, tx);
                    let text = trim(raw);
                    let t = XmlTag { name, attributes, content: Some(NodeContent::Text(text)) };
                    Some((t, z))
                },
                None => None,
            }
        } else if e < n && s.get_char(e) == '/' && e + 1 < n && s.get_char(e + 1) == '>' {
            let t = XmlTag { name, attributes, content: None };
            Some((t, e + 2))
        } else {
            None
        }
    } else {
        None
    }
}

/// Parse the child tags from `from` on, as many as stand there.
fn parse_children(s: &str, from: usize) -> (r: (Vec<XmlTag>, usize))
    requires
        from <= s@.len(),
    ensures
        tag_models_of(r.0@) == children_at(s@, from as int).0,
        r.1 as int == children_at(s@, from as int).1,
        from <= r.1 <= s@.len(),
    decreases s@.len() - from, 2int,
{
    let mut out: Vec<XmlTag> = Vec::new();
    let mut i: usize = from;
    loop
        invariant
            from <= i <= s@.len(),
            children_at(s@, from as int).0 == tag_models_of(out@) + children_at(s@, i as int).0,
            children_at(s@, from as int).1 == children_at(s@, i as int).1,
        decreases s@.len() - i,
    {
        let ghost old_out = out@;
        match parse_xml_tag(s, i) {
            Some((t, z)) => {
                let ghost tm = tag_model(t);
                out.push(t);
                proof {
                    let rest = children_at(s@, z as int).0;
                    assert(children_at(s@, i as int).0 == seq![tm] + rest);
                    assert(tag_models_of(old_out) + (seq![tm] + rest) =~= tag_models_of(out@)
                        + rest);
                }
                i = z;
            },
            None => {
                proof {
                    assert(children_at(s@, i as int).0 =~= Seq::<TagModel>::empty());
                    assert(tag_models_of(old_out) + children_at(s@, i as int).0 =~= tag_models_of(
                        out@,
                    ));
                }
                return (out, i);
            },
        }
    }
}

/// Parse a whole document into its root tag, if it parses.
pub fn parse_xml(s: &str) -> (r: Option<XmlTag>)
    ensures
        match r {
            Some(t) => xml_document(s@) == Some(tag_model(t)),
            None => xml_document(s@) is None,
        },
{
    match parse_xml_tag(s, 0) {
        Some((t, _)) => Some(t),
        None => None,
    }
}

// --- CDATA ---

/// A CDATA section at the start of `s`: `<![CDATA[`, text free of `]`, then
/// `]]>`; the text is yielded trimmed.
pub open spec fn cdata_of(s: Seq<char>) -> Option<Seq<char>> {
    let w = non_ws_from(s, 0);
    if matches_at(s, w, seq!['<', '!', '[', 'C', 'D', 'A', 'T', 'A', '[']) {
        let e = find_from(s, w + 9, ']');
        if matches_at(s, e, seq![']', ']', '>']) {
            Some(trim_of(s.subrange(w + 9, e)))
        } else {
            None
        }
    } else {
        None
    }
}

/// Parse a CDATA section at the start of `s`, yielding its trimmed text.
pub fn parse_cdata(s: &str) -> (r: Option<String>)
    ensures
        match r {
            Some(text) => cdata_of(s@) == Some(text@),
            None => cdata_of(s@) is None,
        },
{
    proof {
        reveal_strlit("<![CDATA[");
        reveal_strlit("]]>");
        assert("<![CDATA["@ =~= seq!['<', '!', '[', 'C', 'D', 'A', 'T', 'A', '[']);
        assert("]]>"@ =~= seq![']', ']', '>']);
    }
    let n = s.unicode_len();
    let w = find_non_ws(s, 0);
    if str_matches_at(s, w, "<![CDATA[") {
        let e = find_char(s, w + 9, ']');
        if str_matches_at(s, e, "]]>") {
            let raw = s.substring_char(w + 9, e);
            Some(trim(raw))
        } else {
            None
        }
    } else {
        None
    }
}

/// The first attribute value under `name`, if any.
pub open spec fn lookup_attr(attrs: Seq<AttributeModel>, name: Seq<char>) -> Option<Seq<char>>
    decreases attrs.len(),
{
    if attrs.len() == 0 {
        None
    } else if attrs[0].name == name {
        Some(attrs[0].value)
    } else {
        lookup_attr(attrs.drop_first(), name)
    }
}

/// The child tags a tag holds; empty for text and childless content.
pub open spec fn spec_children(t: &XmlTag) -> Seq<XmlTag> {
    match t.content {
        Some(NodeContent::Tags(v)) => v@,
        _ => Seq::empty(),
    }
}

impl XmlTag {
    /// Build a childless tag.
    pub fn new(name: &str, attributes: Vec<Attribute>) -> (r: XmlTag)
        ensures
            r.name@ == name@,
            r.attributes == attributes,
            r.content is None,
    {
        XmlTag { name: name.to_owned(), attributes, content: None }
    }

    /// Build a tag holding text.
    pub fn with_text(name: &str, attributes: Vec<Attribute>, text: &str) -> (r: XmlTag)
        ensures
            r.name@ == name@,
            r.attributes == attributes,
            r.content matches Some(NodeContent::Text(s)) && s@ == text@,
    {
        XmlTag { name: name.to_owned(), attributes, content: Some(NodeContent::Text(text.to_owned())) }
    }

    /// The tag's name.
    pub fn name(&self) -> (r: &str)
        ensures
            r@ == self.name@,
    {
        self.name.as_str()
    }

    /// The tag's child tags; empty for a childless or text tag.
    pub fn children(&self) -> (r: &[XmlTag])
        ensures
            r@ == spec_children(self),
    {
        match &self.content {
            Some(NodeContent::Tags(children)) => children.as_slice(),
            _ => &[],
        }
    }

    /// The tag's text, if it holds text.
    pub fn text(&self) -> (r: Option<&str>)
        ensures
            match r {
                Some(text) => self.content matches Some(NodeContent::Text(s)) && text@ == s@,
                None => !(self.content matches Some(NodeContent::Text(_))),
            },
    {
        match &self.content {
            Some(NodeContent::Text(text)) => Some(text.as_str()),
            _ => None,
        }
    }

    /// The first value of the attribute under `name`, if any.
    pub fn attribute(&self, name: &str) -> (r: Option<&str>)
        ensures
            match r {
                Some(value) => lookup_attr(attribute_models_of(self.attributes@), name@) == Some(
                    value@,
                ),
                None => lookup_attr(attribute_models_of(self.attributes@), name@) is None,
            },
    {
        let ghost attrs = attribute_models_of(self.attributes@);
        let n = self.attributes.len();
        let mut i: usize = 0;
        proof {
            assert(attrs.skip(0) =~= attrs);
        }
        while i < n
            invariant
                i <= n,
                n == self.attributes@.len(),
                attrs == attribute_models_of(self.attributes@),
                lookup_attr(attrs, name@) == lookup_attr(attrs.skip(i as int), name@),
            decreases n - i,
        {
            let ghost rest = attrs.skip(i as int);
            proof {
                assert(rest[0] == attrs[i as int]);
                assert(rest.drop_first() =~= attrs.skip(i + 1));
            }
            if crate::text::str_eq(self.attributes[i].name.as_str(), name) {
                return Some(self.attributes[i].value.as_str());
            }
            i += 1;
        }
        proof {
            assert(attrs.skip(n as int) =~= Seq::<AttributeModel>::empty());
        }
        None
    }
}

impl Attribute {
    /// Build an attribute.
    pub fn new(name: &str, value: &str) -> (r: Attribute)
        ensures
            r.name@ == name@,
            r.value@ == value@,
    {
        Attribute { name: name.to_owned(), value: value.to_owned() }
    }
}

/// A double-quoted attribute value at `i`: `"`, text up to the next `"`,
/// then `"`.
pub open spec fn attribute_value_at(s: Seq<char>, i: int) -> Option<(Seq<char>, int)> {
    if 0 <= i < s.len() && s[i] == '"' {
        let q = find_from(s, i + 1, '"');
        if q < s.len() {
            Some((s.subrange(i + 1, q), q + 1))
        } else {
            None
        }
    } else {
        None
    }
}

/// Parse a double-quoted attribute value at `from`, if one stands there.
pub fn parse_attribute_value(s: &str, from: usize) -> (r: Option<(String, usize)>)
    requires
        from <= s@.len(),
    ensures
        match r {
            Some((v, j)) => attribute_value_at(s@, from as int) == Some((v@, j as int)) && from
                < j <= s@.len(),
            None => attribute_value_at(s@, from as int) is None,
        },
{
    let n = s.unicode_len();
    if from < n && s.get_char(from) == '"' {
        proof {
            lemma_find_from(s@, from + 1, '"');
        }
        let q = find_char(s, from + 1, '"');
        if q < n {
            Some((substring(s, from + 1, q), q + 1))
        } else {
            None
        }
    } else {
        None
    }
}

} // verus!
