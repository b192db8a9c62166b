//! The HTML diffing engine: compares two HTML snapshots element by element
//! and produces an ordered list of DOM patches, with a full-replacement
//! fallback, plus the compact patch encoding.
use vstd::prelude::*;
use vstd::string::*;
use crate::elements::{parse_elements, scan_elems, ElemModel, HtmlElement};
use crate::strutil::{
    contains_sub, find_from, is_i32, is_i32_str, matches_at, split_tokens, starts_with, str_eq,
    tokens_spec, trim, trim_spec, vec_contains_str,
};
use crate::types::{DomPatch, LiveTSError, PatchModel};

verus! {

// ---------- match scoring ----------

/// How many tokens of `ts` (counted with multiplicity) occur in `cs`.
pub open spec fn count_shared(ts: Seq<Seq<char>>, cs: Seq<Seq<char>>) -> int
    decreases ts.len(),
{
    if ts.len() == 0 {
        0
    } else {
        count_shared(ts.drop_last(), cs) + if cs.contains(ts.last()) {
            1int
        } else {
            0int
        }
    }
}

/// How many tokens of `ts` longer than three characters occur in `cs`.
pub open spec fn count_shared_big(ts: Seq<Seq<char>>, cs: Seq<Seq<char>>) -> int
    decreases ts.len(),
{
    if ts.len() == 0 {
        0
    } else {
        count_shared_big(ts.drop_last(), cs) + if ts.last().len() > 3 && cs.contains(ts.last()) {
            1int
        } else {
            0int
        }
    }
}

proof fn lemma_count_shared_bounds(ts: Seq<Seq<char>>, cs: Seq<Seq<char>>)
    ensures
        0 <= count_shared(ts, cs) <= ts.len(),
        0 <= count_shared_big(ts, cs) <= ts.len(),
    decreases ts.len(),
{
    if ts.len() > 0 {
        lemma_count_shared_bounds(ts.drop_last(), cs);
    }
}

/// The text-similarity contribution: both texts numeric scores highest,
/// equal lengths score one.
pub open spec fn text_score(a: Seq<char>, b: Seq<char>) -> int {
    if a.len() > 0 && b.len() > 0 {
        if is_i32_str(a) && is_i32_str(b) {
            3
        } else if a.len() == b.len() {
            1
        } else {
            0
        }
    } else {
        0
    }
}

/// The score of matching candidate `c` against target `t`: one for the tag,
/// one per shared class token, two more per shared token longer than three
/// characters, and the text contribution.
pub open spec fn match_score(t: ElemModel, c: ElemModel) -> int {
    1 + count_shared(tokens_spec(t.classes), tokens_spec(c.classes)) + 2 * count_shared_big(
        tokens_spec(t.classes),
        tokens_spec(c.classes),
    ) + text_score(t.text, c.text)
}

fn score_of(target: &HtmlElement, cand: &HtmlElement) -> (r: u128)
    ensures
        r == match_score(target@, cand@),
{
    let t_toks = split_tokens(target.classes.as_str());
    let c_toks = split_tokens(cand.classes.as_str());
    let ghost tt = tokens_spec(target@.classes);
    let ghost ct = tokens_spec(cand@.classes);
    let mut score: u128 = 1;
    let mut i: usize = 0;
    proof {
        assert(t_toks@.map_values(|t: String| t@).subrange(0, 0) =~= Seq::<Seq<char>>::empty());
        lemma_count_shared_bounds(tt, ct);
    }
    while i < t_toks.len()
        invariant
            t_toks@.map_values(|t: String| t@) == tt,
            c_toks@.map_values(|t: String| t@) == ct,
            i <= t_toks@.len(),
            tt.len() == t_toks@.len(),
            score == 1 + count_shared(tt.subrange(0, i as int), ct),
            score <= 1 + i,
        decreases t_toks@.len() - i,
    {
        proof {
            assert(tt.subrange(0, i + 1).drop_last() =~= tt.subrange(0, i as int));
            assert(tt.subrange(0, i + 1).last() == tt[i as int]);
            assert(t_toks@[i as int]@ == tt[i as int]);
        }
        if vec_contains_str(&c_toks, t_toks[i].as_str()) {
            score = score + 1;
        }
        i = i + 1;
    }
    proof {
        assert(tt.subrange(0, tt.len() as int) =~= tt);
    }
    let mut j: usize = 0;
    let ghost base = score;
    proof {
        assert(tt.subrange(0, 0) =~= Seq::<Seq<char>>::empty());
    }
    while j < t_toks.len()
        invariant
            t_toks@.map_values(|t: String| t@) == tt,
            c_toks@.map_values(|t: String| t@) == ct,
            j <= t_toks@.len(),
            tt.len() == t_toks@.len(),
            base == 1 + count_shared(tt, ct),
            base <= 1 + tt.len(),
            score == base + 2 * count_shared_big(tt.subrange(0, j as int), ct),
            score <= base + 2 * j,
        decreases t_toks@.len() - j,
    {
        proof {
            assert(tt.subrange(0, j + 1).drop_last() =~= tt.subrange(0, j as int));
            assert(tt.subrange(0, j + 1).last() == tt[j as int]);
            assert(t_toks@[j as int]@ == tt[j as int]);
        }
        if t_toks[j].as_str().unicode_len() > 3 && vec_contains_str(&c_toks, t_toks[j].as_str()) {
            score = score + 2;
        }
        j = j + 1;
    }
    proof {
        assert(tt.subrange(0, tt.len() as int) =~= tt);
    }
    let t_text = target.text_content.as_str();
    let c_text = cand.text_content.as_str();
    if t_text.unicode_len() > 0 && c_text.unicode_len() > 0 {
        if is_i32(t_text) && is_i32(c_text) {
            score = score + 3;
        } else if t_text.unicode_len() == c_text.unicode_len() {
            score = score + 1;
        }
    }
    score
}

// ---------- matching ----------

/// The first candidate from `i` on whose framework selector equals the
/// target's.
pub open spec fn first_sel_match(t: ElemModel, cs: Seq<ElemModel>, i: int) -> Option<int>
    decreases cs.len() - i,
{
    if i < 0 || i >= cs.len() {
        None
    } else if cs[i].sel == t.sel {
        Some(i)
    } else {
        first_sel_match(t, cs, i + 1)
    }
}

/// The first candidate from `i` on whose id equals the target's.
pub open spec fn first_id_match(t: ElemModel, cs: Seq<ElemModel>, i: int) -> Option<int>
    decreases cs.len() - i,
{
    if i < 0 || i >= cs.len() {
        None
    } else if cs[i].id == t.id {
        Some(i)
    } else {
        first_id_match(t, cs, i + 1)
    }
}

/// The first candidate reaching the maximal score among those sharing the
/// target's tag, scanned from `i` with the best seen so far.
pub open spec fn best_match_from(
    t: ElemModel,
    cs: Seq<ElemModel>,
    i: int,
    best: Option<int>,
    best_score: int,
) -> Option<int>
    decreases cs.len() - i,
{
    if i < 0 || i >= cs.len() {
        best
    } else if cs[i].tag == t.tag && match_score(t, cs[i]) > best_score {
        best_match_from(t, cs, i + 1, Some(i), match_score(t, cs[i]))
    } else {
        best_match_from(t, cs, i + 1, best, best_score)
    }
}

/// The best match of the target among the candidates: an exact framework
/// selector match first, then an exact id match, then the highest-scoring
/// candidate with the same tag.
pub open spec fn find_match(t: ElemModel, cs: Seq<ElemModel>) -> Option<int> {
    if t.sel.len() > 0 && first_sel_match(t, cs, 0) is Some {
        first_sel_match(t, cs, 0)
    } else if t.id.len() > 0 && first_id_match(t, cs, 0) is Some {
        first_id_match(t, cs, 0)
    } else {
        best_match_from(t, cs, 0, None, 0)
    }
}

spec fn opt_int(o: Option<usize>) -> Option<int> {
    match o {
        Some(v) => Some(v as int),
        None => None,
    }
}

/// Finds the best matching candidate for the target.
fn find_matching_element(target: &HtmlElement, candidates: &Vec<HtmlElement>) -> (r: Option<
    usize,
>)
    ensures
        opt_int(r) == find_match(target@, candidates@.map_values(|e: HtmlElement| e@)),
        match r {
            Some(j) => j < candidates@.len(),
            None => true,
        },
{
    let ghost cs = candidates@.map_values(|e: HtmlElement| e@);
    let n = candidates.len();
    if target.ts_selector.as_str().unicode_len() > 0 {
        let mut i: usize = 0;
        while i < n
            invariant
                n == candidates@.len(),
                cs == candidates@.map_values(|e: HtmlElement| e@),
                i <= n,
                target@.sel.len() > 0,
                first_sel_match(target@, cs, 0) == first_sel_match(target@, cs, i as int),
            decreases n - i,
        {
            if str_eq(candidates[i].ts_selector.as_str(), target.ts_selector.as_str()) {
                assert(cs[i as int].sel == target@.sel);
                assert(first_sel_match(target@, cs, i as int) == Some(i as int));
                return Some(i);
            }
            assert(cs[i as int].sel != target@.sel);
            i = i + 1;
        }
        proof {
            assert(first_sel_match(target@, cs, 0) is None);
        }
    }
    let ghost no_sel = target@.sel.len() == 0 || first_sel_match(target@, cs, 0) is None;
    assert(no_sel);
    if target.id.as_str().unicode_len() > 0 {
        let mut i: usize = 0;
        while i < n
            invariant
                n == candidates@.len(),
                cs == candidates@.map_values(|e: HtmlElement| e@),
                i <= n,
                target@.id.len() > 0,
                no_sel,
                no_sel == (target@.sel.len() == 0 || first_sel_match(target@, cs, 0) is None),
                first_id_match(target@, cs, 0) == first_id_match(target@, cs, i as int),
            decreases n - i,
        {
            if str_eq(candidates[i].id.as_str(), target.id.as_str()) {
                assert(cs[i as int].id == target@.id);
                assert(first_id_match(target@, cs, i as int) == Some(i as int));
                return Some(i);
            }
            assert(cs[i as int].id != target@.id);
            i = i + 1;
        }
        proof {
            assert(first_id_match(target@, cs, 0) is None);
        }
    }
    let ghost no_id = target@.id.len() == 0 || first_id_match(target@, cs, 0) is None;
    assert(no_id);
    let mut best: Option<usize> = None;
    let mut best_score: u128 = 0;
    let mut i: usize = 0;
    while i < n
        invariant
            n == candidates@.len(),
            cs == candidates@.map_values(|e: HtmlElement| e@),
            i <= n,
            no_sel,
            no_sel == (target@.sel.len() == 0 || first_sel_match(target@, cs, 0) is None),
            no_id,
            no_id == (target@.id.len() == 0 || first_id_match(target@, cs, 0) is None),
            best_match_from(target@, cs, 0, None, 0) == best_match_from(
                target@,
                cs,
                i as int,
                opt_int(best),
                best_score as int,
            ),
            match best {
                Some(b) => b < n,
                None => true,
            },
        decreases n - i,
    {
        if str_eq(candidates[i].tag_name.as_str(), target.tag_name.as_str()) {
            assert(cs[i as int].tag == target@.tag);
            let sc = score_of(target, &candidates[i]);
            if sc > best_score {
                best = Some(i);
                best_score = sc;
            }
        } else {
            assert(cs[i as int].tag != target@.tag);
        }
        i = i + 1;
    }
    best
}

// ---------- selector construction ----------

/// A class token that distinguishes an element: a background or text utility
/// prefix, or a primary/secondary name.
pub open spec fn is_dist_class(tok: Seq<char>) -> bool {
    matches_at(tok, "bg-"@, 0) || matches_at(tok, "text-"@, 0) || find_from(tok, "primary"@, 0)
        is Some || find_from(tok, "secondary"@, 0) is Some
}

/// The first distinguishing class token from `i` on.
pub open spec fn first_dist_class(toks: Seq<Seq<char>>, i: int) -> Option<int>
    decreases toks.len() - i,
{
    if i < 0 || i >= toks.len() {
        None
    } else if is_dist_class(toks[i]) {
        Some(i)
    } else {
        first_dist_class(toks, i + 1)
    }
}

/// The escape of single quotes: each `'` becomes `\'`.
pub open spec fn escape_sq(s: Seq<char>) -> Seq<char>
    decreases s.len(),
{
    if s.len() == 0 {
        s
    } else {
        escape_sq(s.drop_last()) + (if s.last() == '\'' {
            seq!['\\', '\'']
        } else {
            seq![s.last()]
        })
    }
}

/// The selector built for an element: the framework selector verbatim, the
/// id, a distinguishing class, the first two classes, the single class, the
/// tag refined by short text, or the bare tag.
pub open spec fn selector_spec(e: ElemModel) -> Seq<char> {
    if e.sel.len() > 0 {
        e.sel
    } else if e.id.len() > 0 {
        "#"@ + e.id
    } else {
        let toks = tokens_spec(e.classes);
        if first_dist_class(toks, 0) is Some {
            "."@ + toks[first_dist_class(toks, 0)->0]
        } else if toks.len() >= 2 {
            "."@ + toks[0] + "."@ + toks[1]
        } else if toks.len() == 1 {
            "."@ + toks[0]
        } else if e.text.len() > 0 && e.text.len() <= 10 {
            e.tag + ":contains('"@ + escape_sq(e.text) + "')"@
        } else {
            e.tag
        }
    }
}

fn escape_single_quotes(s: &str) -> (r: String)
    ensures
        r@ == escape_sq(s@),
{
    let n = s.unicode_len();
    let mut out = String::new();
    let mut i: usize = 0;
    proof {
        assert(s@.subrange(0, 0) =~= Seq::<char>::empty());
        assert(escape_sq(s@.subrange(0, 0)) =~= Seq::<char>::empty());
    }
    while i < n
        invariant
            n == s@.len(),
            i <= n,
            out@ == escape_sq(s@.subrange(0, i as int)),
        decreases n - i,
    {
        proof {
            assert(s@.subrange(0, i + 1).drop_last() =~= s@.subrange(0, i as int));
            assert(s@.subrange(0, i + 1).last() == s@[i as int]);
            reveal_strlit("\\'");
        }
        if s.get_char(i) == '\'' {
            out.append("\\'");
        } else {
            let piece = s.substring_char(i, i + 1);
            proof {
                assert(piece@ =~= seq![s@[i as int]]);
            }
            out.append(piece);
        }
        i = i + 1;
    }
    proof {
        assert(s@.subrange(0, n as int) =~= s@);
    }
    out
}

fn has_dist_class_exec(tok: &str) -> (r: bool)
    ensures
        r == is_dist_class(tok@),
{
    starts_with(tok, "bg-") || starts_with(tok, "text-") || contains_sub(tok, "primary")
        || contains_sub(tok, "secondary")
}

fn concat2(a: &str, b: &str) -> (r: String)
    ensures
        r@ == a@ + b@,
{
    let mut s = a.to_owned();
    s.append(b);
    s
}

/// Builds the selector for an element. The base selector the differ derives
/// from the component identity attribute is not composed in; the compact
/// per-element selector stands alone.
pub fn build_element_selector(_base_selector: &str, element: &HtmlElement) -> (r: String)
    ensures
        r@ == selector_spec(element@),
{
    if element.ts_selector.as_str().unicode_len() > 0 {
        return element.ts_selector.clone();
    }
    if element.id.as_str().unicode_len() > 0 {
        return concat2("#", element.id.as_str());
    }
    let toks = split_tokens(element.classes.as_str());
    let ghost tseq = tokens_spec(element@.classes);
    let mut i: usize = 0;
    while i < toks.len()
        invariant
            toks@.map_values(|t: String| t@) == tseq,
            tseq == tokens_spec(element@.classes),
            element@.sel.len() == 0,
            element@.id.len() == 0,
            i <= toks@.len(),
            first_dist_class(tseq, 0) == first_dist_class(tseq, i as int),
        decreases toks@.len() - i,
    {
        proof {
            assert(toks@[i as int]@ == tseq[i as int]);
        }
        if has_dist_class_exec(toks[i].as_str()) {
            proof {
                assert(first_dist_class(tseq, i as int) == Some(i as int));
            }
            return concat2(".", toks[i].as_str());
        }
        i = i + 1;
    }
    proof {
        assert(first_dist_class(tseq, 0) is None);
    }
    if toks.len() >= 2 {
        let mut s = concat2(".", toks[0].as_str());
        s.append(".");
        s.append(toks[1].as_str());
        proof {
            assert(toks@[0]@ == tseq[0]);
            assert(toks@[1]@ == tseq[1]);
        }
        return s;
    }
    if toks.len() == 1 {
        proof {
            assert(toks@[0]@ == tseq[0]);
        }
        return concat2(".", toks[0].as_str());
    }
    let tlen = element.text_content.as_str().unicode_len();
    if tlen > 0 && tlen <= 10 {
        let mut s = concat2(element.tag_name.as_str(), ":contains('");
        let esc = escape_single_quotes(element.text_content.as_str());
        s.append(esc.as_str());
        s.append("')");
        return s;
    }
    element.tag_name.clone()
}

// ---------- patch construction ----------

/// The compact rewrite of a selector: the long attribute form
/// `[data-ts-sel="X"]` becomes the bare `X`; anything else is unchanged.
pub open spec fn opt_selector_spec(sel: Seq<char>) -> Seq<char> {
    let pre = "[data-ts-sel=\""@;
    let suf = "\"]"@;
    if matches_at(sel, pre, 0) && sel.len() >= pre.len() + suf.len() && sel.subrange(
        sel.len() - suf.len(),
        sel.len() as int,
    ) == suf {
        sel.subrange(pre.len() as int, sel.len() - suf.len())
    } else {
        sel
    }
}

/// Rewrites a selector already in the long framework-attribute form to its
/// bare compact value.
pub fn optimize_selector(selector: String) -> (r: String)
    ensures
        r@ == opt_selector_spec(selector@),
{
    proof {
        reveal_strlit("[data-ts-sel=\"");
        reveal_strlit("\"]");
    }
    let n = selector.as_str().unicode_len();
    if starts_with(selector.as_str(), "[data-ts-sel=\"") && n >= 16 {
        let ends = crate::strutil::check_match_at(selector.as_str(), "\"]", n - 2, n, 2);
        if ends {
            proof {
                assert(selector@.subrange(n - 2, n as int) =~= selector@.subrange(
                    n - 2,
                    (n - 2) + 2,
                ));
            }
            return selector.as_str().substring_char(14, n - 2).to_owned();
        }
    }
    proof {
        if matches_at(selector@, "[data-ts-sel=\""@, 0) && selector@.len() >= 16 {
            assert(selector@.subrange(n - 2, n as int) =~= selector@.subrange(n - 2, (n - 2) + 2));
        }
    }
    selector
}

/// The compact rewrite applied to a patch's selector.
pub open spec fn opt_patch_spec(p: PatchModel) -> PatchModel {
    match p {
        PatchModel::UpdateText { selector, text } => PatchModel::UpdateText {
            selector: opt_selector_spec(selector),
            text,
        },
        PatchModel::SetAttribute { selector, attr, value } => PatchModel::SetAttribute {
            selector: opt_selector_spec(selector),
            attr,
            value,
        },
        PatchModel::RemoveAttribute { selector, attr } => PatchModel::RemoveAttribute {
            selector: opt_selector_spec(selector),
            attr,
        },
        PatchModel::ReplaceInnerHtml { selector, html } => PatchModel::ReplaceInnerHtml {
            selector: opt_selector_spec(selector),
            html,
        },
        PatchModel::ReplaceElement { selector, html } => PatchModel::ReplaceElement {
            selector: opt_selector_spec(selector),
            html,
        },
        _ => p,
    }
}

fn optimize_patch(patch: DomPatch) -> (r: DomPatch)
    ensures
        r@ == opt_patch_spec(patch@),
{
    match patch {
        DomPatch::UpdateText { selector, text } => DomPatch::UpdateText {
            selector: optimize_selector(selector),
            text,
        },
        DomPatch::SetAttribute { selector, attr, value } => DomPatch::SetAttribute {
            selector: optimize_selector(selector),
            attr,
            value,
        },
        DomPatch::RemoveAttribute { selector, attr } => DomPatch::RemoveAttribute {
            selector: optimize_selector(selector),
            attr,
        },
        DomPatch::ReplaceInnerHtml { selector, html } => DomPatch::ReplaceInnerHtml {
            selector: optimize_selector(selector),
            html,
        },
        DomPatch::ReplaceElement { selector, html } => DomPatch::ReplaceElement {
            selector: optimize_selector(selector),
            html,
        },
        p => p,
    }
}

/// The patches one matched pair contributes: the class attribute change
/// before the text change, in that fixed order.
pub open spec fn pair_patches(o: ElemModel, n: ElemModel) -> Seq<PatchModel> {
    let sel = selector_spec(o);
    let text_changed = o.text != n.text;
    let classes_changed = o.classes != n.classes;
    if text_changed && classes_changed {
        seq![
            PatchModel::SetAttribute { selector: sel, attr: "class"@, value: n.classes },
            PatchModel::UpdateText { selector: sel, text: n.text },
        ]
    } else if classes_changed {
        seq![PatchModel::SetAttribute { selector: sel, attr: "class"@, value: n.classes }]
    } else if text_changed {
        seq![PatchModel::UpdateText { selector: sel, text: n.text }]
    } else {
        seq![]
    }
}

/// The patches of all old elements from `i` on, each against its best match
/// among the new elements.
pub open spec fn smart_patches_from(os: Seq<ElemModel>, ns: Seq<ElemModel>, i: int) -> Seq<
    PatchModel,
>
    decreases os.len() - i,
{
    if i < 0 || i >= os.len() {
        seq![]
    } else {
        (match find_match(os[i], ns) {
            Some(j) => pair_patches(os[i], ns[j]),
            None => seq![],
        }) + smart_patches_from(os, ns, i + 1)
    }
}

/// What `diff` yields: the element-by-element patches in compact form when
/// both snapshots hold elements and some pair differs; otherwise one full
/// replacement when the trimmed snapshots differ; otherwise nothing.
pub open spec fn diff_spec(old: Seq<char>, new: Seq<char>) -> Seq<PatchModel> {
    let os = scan_elems(old, 0);
    let ns = scan_elems(new, 0);
    let sp = smart_patches_from(os, ns, 0);
    if os.len() > 0 && ns.len() > 0 && sp.len() > 0 {
        sp.map_values(|p: PatchModel| opt_patch_spec(p))
    } else if trim_spec(old) != trim_spec(new) {
        seq![PatchModel::ReplaceInnerHtml { selector: "[data-livets-root]"@, html: new }]
    } else {
        seq![]
    }
}

/// The high-performance HTML diffing engine.
pub struct HtmlDiffer {}

impl HtmlDiffer {
    pub fn new() -> (r: Self) {
        HtmlDiffer {  }
    }

    /// Compares two HTML snapshots and generates the ordered patch list.
    /// Never fails: when no element-level diff is found it falls back to one
    /// full replacement, or to no patch when the snapshots agree.
    pub fn diff(&self, old_html: &str, new_html: &str) -> (r: Result<Vec<DomPatch>, LiveTSError>)
        ensures
            r is Ok,
            match r {
                Ok(ps) => ps@.map_values(|p: DomPatch| p@) == diff_spec(old_html@, new_html@),
                Err(_) => false,
            },
    {
        match self.smart_element_diff(old_html, new_html) {
            Some(patches) => {
                proof {
                    assert(patches@.map_values(|p: DomPatch| p@) =~~= diff_spec(
                        old_html@,
                        new_html@,
                    ));
                }
                Ok(patches)
            },
            None => {
                let mut patches: Vec<DomPatch> = Vec::new();
                if !str_eq(trim(old_html), trim(new_html)) {
                    patches.push(
                        DomPatch::ReplaceInnerHtml {
                            selector: "[data-livets-root]".to_owned(),
                            html: new_html.to_owned(),
                        },
                    );
                }
                proof {
                    assert(patches@.map_values(|p: DomPatch| p@) =~~= diff_spec(
                        old_html@,
                        new_html@,
                    ));
                }
                Ok(patches)
            },
        }
    }

    /// The element-by-element diff: every old element is matched against the
    /// new elements and each changed pair contributes its patches, rewritten
    /// to compact selectors. Yields nothing when either snapshot holds no
    /// element or no pair differs.
    fn smart_element_diff(&self, old_html: &str, new_html: &str) -> (r: Option<Vec<DomPatch>>)
        ensures
            ({
                let os = scan_elems(old_html@, 0);
                let ns = scan_elems(new_html@, 0);
                let sp = smart_patches_from(os, ns, 0);
                match r {
                    Some(ps) => os.len() > 0 && ns.len() > 0 && sp.len() > 0
                        && ps@.map_values(|p: DomPatch| p@) == sp.map_values(
                        |p: PatchModel| opt_patch_spec(p),
                    ),
                    None => os.len() == 0 || ns.len() == 0 || sp.len() == 0,
                }
            }),
    {
        let ghost os = scan_elems(old_html@, 0);
        let ghost ns = scan_elems(new_html@, 0);
        let old_elements = match parse_elements(old_html) {
            Some(v) => v,
            None => {
                return None;
            },
        };
        let new_elements = match parse_elements(new_html) {
            Some(v) => v,
            None => {
                return None;
            },
        };
        let mut patches: Vec<DomPatch> = Vec::new();
        let mut i: usize = 0;
        proof {
            assert(patches@.map_values(|p: DomPatch| p@) + smart_patches_from(os, ns, 0)
                =~~= smart_patches_from(os, ns, 0));
        }
        while i < old_elements.len()
            invariant
                old_elements@.map_values(|e: HtmlElement| e@) == os,
                new_elements@.map_values(|e: HtmlElement| e@) == ns,
                i <= old_elements@.len(),
                smart_patches_from(os, ns, 0) =~~= patches@.map_values(|p: DomPatch| p@)
                    + smart_patches_from(os, ns, i as int),
            decreases old_elements@.len() - i,
        {
            let old_elem = &old_elements[i];
            proof {
                assert(old_elements@[i as int]@ == os[i as int]);
            }
            match find_matching_element(old_elem, &new_elements) {
                Some(j) => {
                    proof {
                        assert(new_elements@[j as int]@ == ns[j as int]);
                    }
                    let new_elem = &new_elements[j];
                    let text_changed = !str_eq(
                        old_elem.text_content.as_str(),
                        new_elem.text_content.as_str(),
                    );
                    let classes_changed = !str_eq(
                        old_elem.classes.as_str(),
                        new_elem.classes.as_str(),
                    );
                    let ghost before = patches@;
                    if text_changed && classes_changed {
                        let selector = build_element_selector("", old_elem);
                        patches.push(
                            DomPatch::SetAttribute {
                                selector: selector.clone(),
                                attr: "class".to_owned(),
                                value: new_elem.classes.clone(),
                            },
                        );
                        patches.push(
                            DomPatch::UpdateText {
                                selector,
                                text: new_elem.text_content.clone(),
                            },
                        );
                        proof {
                            assert(patches@.map_values(|p: DomPatch| p@) =~~= before.map_values(
                                |p: DomPatch| p@,
                            ) + pair_patches(os[i as int], ns[j as int]));
                        }
                    } else if classes_changed {
                        let selector = build_element_selector("", old_elem);
                        patches.push(
                            DomPatch::SetAttribute {
                                selector,
                                attr: "class".to_owned(),
                                value: new_elem.classes.clone(),
                            },
                        );
                        proof {
                            assert(patches@.map_values(|p: DomPatch| p@) =~~= before.map_values(
                                |p: DomPatch| p@,
                            ) + pair_patches(os[i as int], ns[j as int]));
                        }
                    } else if text_changed {
                        let selector = build_element_selector("", old_elem);
                        patches.push(
                            DomPatch::UpdateText {
                                selector,
                                text: new_elem.text_content.clone(),
                            },
                        );
                        proof {
                            assert(patches@.map_values(|p: DomPatch| p@) =~~= before.map_values(
                                |p: DomPatch| p@,
                            ) + pair_patches(os[i as int], ns[j as int]));
                        }
                    } else {
                        proof {
                            assert(pair_patches(os[i as int], ns[j as int]) =~~= Seq::<
                                PatchModel,
                            >::empty());
                        }
                    }
                },
                None => {
                },
            }
            i = i + 1;
        }
        if patches.len() == 0 {
            proof {
                assert(smart_patches_from(os, ns, 0) =~~= patches@.map_values(
                    |p: DomPatch| p@,
                ));
            }
            return None;
        }
        let mut compact: Vec<DomPatch> = Vec::new();
        let ghost raw = patches@.map_values(|p: DomPatch| p@);
        proof {
            assert(raw =~~= smart_patches_from(os, ns, 0));
        }
        let mut rest = patches;
        while rest.len() > 0
            invariant
                compact@.len() + rest@.len() == raw.len(),
                forall|m: int| 0 <= m < rest@.len() ==> rest@[m]@ == raw[compact@.len() + m],
                forall|m: int| 0 <= m < compact@.len() ==> compact@[m]@ == opt_patch_spec(
                    raw[m],
                ),
            decreases rest@.len(),
        {
            let p = rest.remove(0);
            let q = optimize_patch(p);
            compact.push(q);
        }
        proof {
            assert(compact@.map_values(|p: DomPatch| p@) =~~= raw.map_values(
                |p: PatchModel| opt_patch_spec(p),
            ));
        }
        Some(compact)
    }

    /// Extracts the component identity attribute from the HTML text.
    pub fn extract_component_id(&self, html: &str) -> (r: Option<String>)
        ensures
            match r {
                Some(v) => crate::elements::component_id_spec(html@) == Some(v@),
                None => crate::elements::component_id_spec(html@) is None,
            },
    {
        crate::elements::extract_component_id(html)
    }

    /// The compact string encoding of one patch: `op|selector|data`, with an
    /// empty string for the patch kinds the compact path does not carry.
    pub open spec fn patch_compact_spec(p: PatchModel) -> Seq<char> {
        match p {
            PatchModel::UpdateText { selector, text } => "t|"@ + opt_selector_spec(selector)
                + "|"@ + text,
            PatchModel::SetAttribute { selector, attr, value } => "a|"@ + opt_selector_spec(
                selector,
            ) + "|"@ + attr + "|"@ + value,
            PatchModel::RemoveAttribute { selector, attr } => "r|"@ + opt_selector_spec(selector)
                + "|"@ + attr,
            PatchModel::ReplaceInnerHtml { selector, html } => "h|"@ + opt_selector_spec(selector)
                + "|"@ + html,
            PatchModel::ReplaceElement { selector, html } => "e|"@ + opt_selector_spec(selector)
                + "|"@ + html,
            _ => Seq::empty(),
        }
    }

    /// Encodes one patch in the compact pipe-delimited form.
    fn patch_to_compact(&self, patch: DomPatch) -> (r: String)
        ensures
            r@ == Self::patch_compact_spec(patch@),
    {
        match patch {
            DomPatch::UpdateText { selector, text } => {
                let mut s = concat2("t|", optimize_selector(selector).as_str());
                s.append("|");
                s.append(text.as_str());
                s
            },
            DomPatch::SetAttribute { selector, attr, value } => {
                let mut s = concat2("a|", optimize_selector(selector).as_str());
                s.append("|");
                s.append(attr.as_str());
                s.append("|");
                s.append(value.as_str());
                s
            },
            DomPatch::RemoveAttribute { selector, attr } => {
                let mut s = concat2("r|", optimize_selector(selector).as_str());
                s.append("|");
                s.append(attr.as_str());
                s
            },
            DomPatch::ReplaceInnerHtml { selector, html } => {
                let mut s = concat2("h|", optimize_selector(selector).as_str());
                s.append("|");
                s.append(html.as_str());
                s
            },
            DomPatch::ReplaceElement { selector, html } => {
                let mut s = concat2("e|", optimize_selector(selector).as_str());
                s.append("|");
                s.append(html.as_str());
                s
            },
            p => {
                proof {
                    assert(Self::patch_compact_spec(p@) =~= Seq::<char>::empty());
                }
                String::new()
            },
        }
    }

    /// Encodes a patch list in the compact form, in order.
    pub fn patches_to_compact(&self, patches: Vec<DomPatch>) -> (r: Vec<String>)
        ensures
            r@.len() == patches@.len(),
            forall|i: int| 0 <= i < patches@.len() ==> r@[i]@ == Self::patch_compact_spec(
                patches@[i]@,
            ),
    {
        let ghost raw = patches@.map_values(|p: DomPatch| p@);
        let mut out: Vec<String> = Vec::new();
        let mut rest = patches;
        while rest.len() > 0
            invariant
                out@.len() + rest@.len() == raw.len(),
                forall|m: int| 0 <= m < rest@.len() ==> rest@[m]@ == raw[out@.len() + m],
                forall|m: int| 0 <= m < out@.len() ==> out@[m]@ == Self::patch_compact_spec(
                    raw[m],
                ),
            decreases rest@.len(),
        {
            let p = rest.remove(0);
            let s = self.patch_to_compact(p);
            out.push(s);
        }
        proof {
            assert(out@.len() == patches@.len());
            assert forall|i: int| 0 <= i < patches@.len() implies out@[i]@
                == Self::patch_compact_spec(patches@[i]@) by {
                assert(raw[i] == patches@[i]@);
                assert(out@[i]@ == Self::patch_compact_spec(raw[i]));
            }
        }
        out
    }
}

impl Default for HtmlDiffer {
    fn default() -> (r: Self) {
        HtmlDiffer::new()
    }
}

// ---------- the idempotence law ----------

/// Elements are pairwise distinguishable: no two share a nonempty framework
/// selector, no two share a nonempty id, and an element with neither has a
/// tag of its own.
pub open spec fn distinct_keys(es: Seq<ElemModel>) -> bool {
    forall|i: int, j: int|
        0 <= i < es.len() && 0 <= j < es.len() && i != j ==> {
            &&& ((#[trigger] es[i]).sel.len() > 0 ==> (#[trigger] es[j]).sel != es[i].sel)
            &&& (es[i].id.len() > 0 ==> es[j].id != es[i].id)
            &&& (es[i].sel.len() == 0 && es[i].id.len() == 0 ==> es[j].tag != es[i].tag)
        }
}

proof fn lemma_first_sel_unique(t: ElemModel, es: Seq<ElemModel>, i: int, k: int)
    requires
        0 <= i <= k < es.len(),
        es[k].sel == t.sel,
        forall|j: int| i <= j < k ==> (#[trigger] es[j]).sel != t.sel,
    ensures
        first_sel_match(t, es, i) == Some(k),
    decreases k - i,
{
    if i < k {
        lemma_first_sel_unique(t, es, i + 1, k);
    }
}

proof fn lemma_first_id_unique(t: ElemModel, es: Seq<ElemModel>, i: int, k: int)
    requires
        0 <= i <= k < es.len(),
        es[k].id == t.id,
        forall|j: int| i <= j < k ==> (#[trigger] es[j]).id != t.id,
    ensures
        first_id_match(t, es, i) == Some(k),
    decreases k - i,
{
    if i < k {
        lemma_first_id_unique(t, es, i + 1, k);
    }
}

proof fn lemma_best_stable(t: ElemModel, es: Seq<ElemModel>, i: int, best: Option<int>, bs: int)
    requires
        forall|j: int| i <= j < es.len() ==> (#[trigger] es[j]).tag != t.tag,
    ensures
        best_match_from(t, es, i, best, bs) == best,
    decreases es.len() - i,
{
    if 0 <= i && i < es.len() {
        lemma_best_stable(t, es, i + 1, best, bs);
    }
}

proof fn lemma_best_unique(
    t: ElemModel,
    es: Seq<ElemModel>,
    i: int,
    k: int,
    best: Option<int>,
    bs: int,
)
    requires
        0 <= i <= k < es.len(),
        es[k].tag == t.tag,
        match_score(t, es[k]) > bs,
        forall|j: int| i <= j < es.len() && j != k ==> (#[trigger] es[j]).tag != t.tag,
    ensures
        best_match_from(t, es, i, best, bs) == Some(k),
    decreases k - i,
{
    if i == k {
        lemma_best_stable(t, es, k + 1, Some(k), match_score(t, es[k]));
    } else {
        lemma_best_unique(t, es, i + 1, k, best, bs);
    }
}

proof fn lemma_find_match_self(es: Seq<ElemModel>, k: int)
    requires
        distinct_keys(es),
        0 <= k < es.len(),
    ensures
        find_match(es[k], es) == Some(k),
{
    let t = es[k];
    if t.sel.len() > 0 {
        assert forall|j: int| 0 <= j < k implies (#[trigger] es[j]).sel != t.sel by {
            assert(es[j].sel != es[k].sel);
        }
        lemma_first_sel_unique(t, es, 0, k);
    } else if t.id.len() > 0 {
        assert forall|j: int| 0 <= j < k implies (#[trigger] es[j]).id != t.id by {
            assert(es[j].id != es[k].id);
        }
        lemma_first_id_unique(t, es, 0, k);
    } else {
        assert forall|j: int| 0 <= j < es.len() && j != k implies (#[trigger] es[j]).tag != t.tag
            by {
            assert(es[j].tag != es[k].tag);
        }
        lemma_count_shared_bounds(tokens_spec(t.classes), tokens_spec(t.classes));
        assert(match_score(t, es[k]) > 0);
        lemma_best_unique(t, es, 0, k, None, 0);
    }
}

proof fn lemma_smart_self(es: Seq<ElemModel>, i: int)
    requires
        distinct_keys(es),
        0 <= i,
    ensures
        smart_patches_from(es, es, i) == Seq::<PatchModel>::empty(),
    decreases es.len() - i,
{
    if i < es.len() {
        lemma_find_match_self(es, i);
        assert(pair_patches(es[i], es[i]) =~= Seq::<PatchModel>::empty());
        lemma_smart_self(es, i + 1);
        assert(smart_patches_from(es, es, i) =~= Seq::<PatchModel>::empty());
    }
}

/// Law: diffing a snapshot against itself yields no patch, for every
/// snapshot whose extracted elements are pairwise distinguishable. (With two
/// elements that share a tag and carry neither a framework selector nor an
/// id, the matcher can pair an element with the other one and report their
/// differences, so the restriction is necessary.)
pub proof fn lemma_diff_idempotent(html: Seq<char>)
    requires
        distinct_keys(scan_elems(html, 0)),
    ensures
        diff_spec(html, html) == Seq::<PatchModel>::empty(),
{
    let es = scan_elems(html, 0);
    lemma_smart_self(es, 0);
    assert(diff_spec(html, html) =~= Seq::<PatchModel>::empty());
}

} // verus!
