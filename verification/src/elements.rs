//! Structural extraction of meaningful HTML elements: a document-order scan
//! for `<tag attrs>text</tag>` forms, with the class, id and framework
//! selector attribute values and the trimmed text content of each element.
use vstd::prelude::*;
use vstd::string::*;
use crate::strutil::{
    capture, capture_nonempty, capture_nonempty_at, capture_spec, find_char, find_char_from,
    is_word, is_word_char, lemma_find_char_from_props, str_eq, trim, trim_spec,
};

verus! {

/// A parsed HTML element.
#[derive(Debug, Clone)]
pub struct HtmlElement {
    pub tag_name: String,
    pub classes: String,
    pub text_content: String,
    pub id: String,
    pub ts_selector: String,
}

/// Spec-level model of a parsed element.
pub struct ElemModel {
    pub tag: Seq<char>,
    pub classes: Seq<char>,
    pub text: Seq<char>,
    pub id: Seq<char>,
    pub sel: Seq<char>,
}

impl View for HtmlElement {
    type V = ElemModel;

    open spec fn view(&self) -> ElemModel {
        ElemModel {
            tag: self.tag_name@,
            classes: self.classes@,
            text: self.text_content@,
            id: self.id@,
            sel: self.ts_selector@,
        }
    }
}

/// The end of the maximal run of word characters starting at `i`.
pub open spec fn word_end(s: Seq<char>, i: int) -> int
    decreases s.len() - i,
{
    if i < 0 || i >= s.len() || !is_word_char(s[i]) {
        i
    } else {
        word_end(s, i + 1)
    }
}

pub proof fn lemma_word_end_bounds(s: Seq<char>, i: int)
    requires
        0 <= i <= s.len(),
    ensures
        i <= word_end(s, i) <= s.len(),
    decreases s.len() - i,
{
    if i < s.len() && is_word_char(s[i]) {
        lemma_word_end_bounds(s, i + 1);
    }
}

fn word_end_exec(s: &str, i: usize, n: usize) -> (r: usize)
    requires
        n == s@.len(),
        i <= n,
    ensures
        r == word_end(s@, i as int),
        i <= r <= n,
{
    let mut j: usize = i;
    while j < n && is_word(s.get_char(j))
        invariant
            n == s@.len(),
            i <= j <= n,
            word_end(s@, i as int) == word_end(s@, j as int),
        decreases n - j,
    {
        j = j + 1;
    }
    j
}

/// The raw pieces of one element form found at position `p`: the tag word,
/// the attribute text, the raw inner text, the closing tag word, and the
/// position just past the form.
pub struct RawElem {
    pub tag: Seq<char>,
    pub attrs: Seq<char>,
    pub text: Seq<char>,
    pub close: Seq<char>,
    pub end: int,
}

/// The element form at position `p`: `<` and a word, attribute text up to
/// the first `>`, inner text up to the first `<`, then `/`, a word, and `>`.
pub open spec fn element_at(s: Seq<char>, p: int) -> Option<RawElem> {
    if !(0 <= p && p + 1 < s.len() && s[p] == '<' && is_word_char(s[p + 1])) {
        None
    } else {
        let we = word_end(s, p + 1);
        match find_char_from(s, '>', we) {
            None => None,
            Some(q) => match find_char_from(s, '<', q + 1) {
                None => None,
                Some(r) => if r + 2 < s.len() && s[r + 1] == '/' && is_word_char(s[r + 2]) {
                    let ce = word_end(s, r + 2);
                    if ce < s.len() && s[ce] == '>' {
                        Some(
                            RawElem {
                                tag: s.subrange(p + 1, we),
                                attrs: s.subrange(we, q),
                                text: s.subrange(q + 1, r),
                                close: s.subrange(r + 2, ce),
                                end: ce + 1,
                            },
                        )
                    } else {
                        None
                    }
                } else {
                    None
                },
            },
        }
    }
}

pub proof fn lemma_element_at_bounds(s: Seq<char>, p: int)
    ensures
        match element_at(s, p) {
            Some(re) => p < re.end <= s.len(),
            None => true,
        },
{
    if 0 <= p && p + 1 < s.len() && s[p] == '<' && is_word_char(s[p + 1]) {
        lemma_word_end_bounds(s, p + 1);
        let we = word_end(s, p + 1);
        if find_char_from(s, '>', we) is Some {
            let q = find_char_from(s, '>', we)->0;
            lemma_find_char_from_props(s, '>', we);
            if find_char_from(s, '<', q + 1) is Some {
                let r = find_char_from(s, '<', q + 1)->0;
                lemma_find_char_from_props(s, '<', q + 1);
                if r + 2 < s.len() && s[r + 1] == '/' && is_word_char(s[r + 2]) {
                    lemma_word_end_bounds(s, r + 2);
                }
            }
        }
    }
}

/// The element model built from the raw pieces: attribute captures and the
/// trimmed text.
pub open spec fn elem_of_raw(re: RawElem) -> ElemModel {
    ElemModel {
        tag: re.tag,
        classes: match capture_spec(re.attrs, "class=\""@) {
            Some(v) => v,
            None => Seq::empty(),
        },
        text: trim_spec(re.text),
        id: match capture_spec(re.attrs, "id=\""@) {
            Some(v) => v,
            None => Seq::empty(),
        },
        sel: match capture_spec(re.attrs, "data-ts-sel=\""@) {
            Some(v) => v,
            None => Seq::empty(),
        },
    }
}

/// All elements of `s` in document order from position `i` on: at each
/// position the element form is tried; a form whose opening and closing tag
/// words agree yields an element, and the scan resumes past the form.
pub open spec fn scan_elems(s: Seq<char>, i: int) -> Seq<ElemModel>
    decreases s.len() - i,
    via scan_elems_decreases
{
    if i < 0 || i >= s.len() {
        seq![]
    } else {
        match element_at(s, i) {
            Some(re) => (if re.tag == re.close {
                seq![elem_of_raw(re)]
            } else {
                seq![]
            }) + scan_elems(s, re.end),
            None => scan_elems(s, i + 1),
        }
    }
}

#[via_fn]
proof fn scan_elems_decreases(s: Seq<char>, i: int) {
    lemma_element_at_bounds(s, i);
}

/// Tries the element form at position `p`. Returns the element (or nothing,
/// when the tag words disagree) and the position just past the form.
fn try_element_at(html: &str, p: usize, n: usize) -> (r: Option<(Option<HtmlElement>, usize)>)
    requires
        n == html@.len(),
        p < n,
    ensures
        match r {
            Some(pair) => element_at(html@, p as int) is Some && {
                let re = element_at(html@, p as int)->0;
                &&& pair.1 == re.end
                &&& match pair.0 {
                    Some(e) => re.tag == re.close && e@ == elem_of_raw(re),
                    None => re.tag != re.close,
                }
            },
            None => element_at(html@, p as int) is None,
        },
{
    if html.get_char(p) != '<' {
        return None;
    }
    if p + 1 >= n {
        return None;
    }
    if !is_word(html.get_char(p + 1)) {
        return None;
    }
    let we = word_end_exec(html, p + 1, n);
    let q = match find_char(html, '>', we) {
        Some(q) => q,
        None => {
            return None;
        },
    };
    proof {
        lemma_find_char_from_props(html@, '>', we as int);
    }
    let r_ = match find_char(html, '<', q + 1) {
        Some(r_) => r_,
        None => {
            return None;
        },
    };
    proof {
        lemma_find_char_from_props(html@, '<', q + 1);
    }
    if n - r_ <= 2 {
        return None;
    }
    if html.get_char(r_ + 1) != '/' {
        return None;
    }
    if !is_word(html.get_char(r_ + 2)) {
        return None;
    }
    let ce = word_end_exec(html, r_ + 2, n);
    if !(ce < n) {
        return None;
    }
    if html.get_char(ce) != '>' {
        return None;
    }
    let open_tag = html.substring_char(p + 1, we);
    let close_tag = html.substring_char(r_ + 2, ce);
    if !str_eq(open_tag, close_tag) {
        return Some((None, ce + 1));
    }
    let attrs = html.substring_char(we, q);
    let classes = match capture(attrs, "class=\"") {
        Some(v) => v,
        None => String::new(),
    };
    let id = match capture(attrs, "id=\"") {
        Some(v) => v,
        None => String::new(),
    };
    let sel = match capture(attrs, "data-ts-sel=\"") {
        Some(v) => v,
        None => String::new(),
    };
    let text = trim(html.substring_char(q + 1, r_)).to_owned();
    Some(
        (
            Some(
                HtmlElement {
                    tag_name: open_tag.to_owned(),
                    classes,
                    text_content: text,
                    id,
                    ts_selector: sel,
                },
            ),
            ce + 1,
        ),
    )
}

/// Extracts all meaningful elements of the HTML text, in document order.
/// Returns nothing when the text holds no element form.
pub fn parse_elements(html: &str) -> (r: Option<Vec<HtmlElement>>)
    ensures
        match r {
            Some(v) => v@.map_values(|e: HtmlElement| e@) == scan_elems(html@, 0) && v@.len() > 0,
            None => scan_elems(html@, 0).len() == 0,
        },
{
    let n = html.unicode_len();
    let mut elems: Vec<HtmlElement> = Vec::new();
    let mut i: usize = 0;
    proof {
        assert(elems@.map_values(|e: HtmlElement| e@) + scan_elems(html@, 0) =~~= scan_elems(
            html@,
            0,
        ));
    }
    while i < n
        invariant
            n == html@.len(),
            i <= n,
            scan_elems(html@, 0) =~~= elems@.map_values(|e: HtmlElement| e@) + scan_elems(
                html@,
                i as int,
            ),
        decreases n - i,
    {
        match try_element_at(html, i, n) {
            Some((elem_opt, end)) => {
                proof {
                    lemma_element_at_bounds(html@, i as int);
                }
                match elem_opt {
                    Some(e) => {
                        let ghost old_elems = elems@;
                        elems.push(e);
                        proof {
                            assert(elems@.map_values(|e: HtmlElement| e@) =~~= old_elems.map_values(
                                |e: HtmlElement| e@,
                            ).push(e@));
                        }
                    },
                    None => {
                    },
                }
                i = end;
            },
            None => {
                i = i + 1;
            },
        }
    }
    if elems.len() == 0 {
        None
    } else {
        proof {
            assert(elems@.map_values(|e: HtmlElement| e@) =~~= scan_elems(html@, 0));
        }
        Some(elems)
    }
}

/// The component identity attribute value found in the HTML text, when a
/// nonempty one is present.
pub open spec fn component_id_spec(html: Seq<char>) -> Option<Seq<char>> {
    capture_nonempty_at(html, "data-livets-id=\""@, 0)
}

/// Extracts the component identity attribute value from the HTML text.
pub fn extract_component_id(html: &str) -> (r: Option<String>)
    ensures
        match r {
            Some(v) => component_id_spec(html@) == Some(v@),
            None => component_id_spec(html@) is None,
        },
{
    capture_nonempty(html, "data-livets-id=\"")
}

} // verus!
