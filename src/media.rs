//! Inline media: every occurrence of an emote's text in a message body becomes
//! an image fragment. Substitution runs in two passes over a sequence of pieces;
//! a replaced occurrence is a `Media` piece, which no later pattern can match.
use vstd::prelude::*;

use crate::message::media_view;
use crate::text::{
    chars_of, contains_text, escape_html, lemma_escape_html_no_angle, no_open_angle, occurs_at, push_text,
    sanitize,
};

verus! {

/// One unit of a body under substitution: `(c, None)` is the character `c`;
/// `(_, Some(k))` is the placeholder for the emote with index `k`.
pub type Piece = (char, Option<usize>);

pub open spec fn text_piece(c: char) -> Piece {
    (c, None)
}

pub open spec fn media_piece(k: usize) -> Piece {
    (' ', Some(k))
}

/// Each character of `s` as a text piece.
pub open spec fn text_pieces(s: Seq<char>) -> Seq<Piece>
    decreases s.len(),
{
    if s.len() == 0 {
        seq![]
    } else {
        text_pieces(s.drop_last()).push(text_piece(s.last()))
    }
}

pub proof fn lemma_text_pieces(s: Seq<char>)
    ensures
        text_pieces(s).len() == s.len(),
        forall|j: int| 0 <= j < s.len() ==> #[trigger] text_pieces(s)[j] == text_piece(s[j]),
    decreases s.len(),
{
    if s.len() > 0 {
        lemma_text_pieces(s.drop_last());
    }
}

/// `pat` is spelled by the text pieces at the start of `s`.
pub open spec fn matches_at(s: Seq<Piece>, pat: Seq<char>) -> bool {
    &&& pat.len() <= s.len()
    &&& forall|j: int| 0 <= j < pat.len() ==> s[j] == text_piece(pat[j])
}

/// Replaces, from left to right and without overlap, each occurrence of a
/// non-empty `pat` by the placeholder `k`. An empty pattern replaces nothing.
pub open spec fn substitute(s: Seq<Piece>, pat: Seq<char>, k: usize) -> Seq<Piece>
    decreases s.len(),
{
    if s.len() == 0 {
        seq![]
    } else if pat.len() > 0 && matches_at(s, pat) {
        seq![media_piece(k)] + substitute(s.skip(pat.len() as int), pat, k)
    } else {
        seq![s[0]] + substitute(s.skip(1), pat, k)
    }
}

/// The first pass over the first `n` emotes, in order.
pub open spec fn substitute_upto(
    s: Seq<Piece>,
    media: Seq<(Seq<char>, Seq<char>, Seq<char>)>,
    n: nat,
) -> Seq<Piece>
    decreases n,
{
    if n == 0 {
        s
    } else {
        substitute(substitute_upto(s, media, (n - 1) as nat), media[n - 1].0, (n - 1) as usize)
    }
}

/// The image markup for an emote, with its URL and label escaped.
pub open spec fn fragment(url: Seq<char>, label: Seq<char>) -> Seq<char> {
    "<img class=\"emoji\" src=\""@ + escape_html(url) + "\" data-emoji=\""@ + escape_html(label)
        + "\" alt=\""@ + escape_html(label) + "\" />"@
}

pub open spec fn piece_text(p: Piece, frags: Seq<Seq<char>>) -> Seq<char> {
    match p.1 {
        None => seq![p.0],
        Some(k) => if k < frags.len() {
            frags[k as int]
        } else {
            seq![]
        },
    }
}

/// The second pass: each placeholder becomes its fragment.
pub open spec fn render(ps: Seq<Piece>, frags: Seq<Seq<char>>) -> Seq<char>
    decreases ps.len(),
{
    if ps.len() == 0 {
        seq![]
    } else {
        render(ps.drop_last(), frags) + piece_text(ps.last(), frags)
    }
}

pub open spec fn fragments(media: Seq<(Seq<char>, Seq<char>, Seq<char>)>) -> Seq<Seq<char>> {
    media.map_values(|e: (Seq<char>, Seq<char>, Seq<char>)| fragment(e.1, e.2))
}

/// A body with its inline media substituted.
pub open spec fn inline_media(body: Seq<char>, media: Seq<(Seq<char>, Seq<char>, Seq<char>)>) -> Seq<
    char,
> {
    render(substitute_upto(text_pieces(body), media, media.len()), fragments(media))
}

/// What the broker makes of a raw body: escaped once, then its media substituted.
pub open spec fn finished_body(raw: Seq<char>, media: Seq<(Seq<char>, Seq<char>, Seq<char>)>) -> Seq<
    char,
> {
    inline_media(escape_html(raw), media)
}

fn pieces_of(s: &str) -> (r: Vec<Piece>)
    ensures
        r@ == text_pieces(s@),
{
    let cs = chars_of(s);
    let mut r: Vec<Piece> = Vec::new();
    let mut i: usize = 0;
    while i < cs.len()
        invariant
            cs@ == s@,
            i <= cs@.len(),
            r@ == text_pieces(cs@.take(i as int)),
        decreases cs.len() - i,
    {
        assert(cs@.take(i + 1).drop_last() =~= cs@.take(i as int));
        r.push((cs[i], None));
        i = i + 1;
    }
    assert(cs@.take(cs@.len() as int) =~= cs@);
    r
}

fn matches_here(s: &Vec<Piece>, i: usize, pat: &Vec<char>) -> (r: bool)
    requires
        i <= s@.len(),
    ensures
        r == matches_at(s@.skip(i as int), pat@),
{
    if pat.len() > s.len() - i {
        return false;
    }
    let mut j: usize = 0;
    while j < pat.len()
        invariant
            i <= s@.len(),
            s@.len() == s.len(),
            pat@.len() <= s@.len() - i,
            j <= pat@.len(),
            forall|t: int| 0 <= t < j ==> s@[i + t] == text_piece(pat@[t]),
        decreases pat.len() - j,
    {
        let p = s[i + j];
        if p.1.is_some() || p.0 != pat[j] {
            assert(s@.skip(i as int)[j as int] != text_piece(pat@[j as int]));
            return false;
        }
        j = j + 1;
    }
    true
}

/// One substitution pass for one pattern.
fn substitute_pass(s: &Vec<Piece>, pat: &Vec<char>, k: usize) -> (r: Vec<Piece>)
    ensures
        r@ == substitute(s@, pat@, k),
{
    let mut out: Vec<Piece> = Vec::new();
    let mut i: usize = 0;
    assert(s@.skip(0) =~= s@);
    assert(out@ + substitute(s@, pat@, k) =~= substitute(s@, pat@, k));
    while i < s.len()
        invariant
            i <= s@.len(),
            out@ + substitute(s@.skip(i as int), pat@, k) == substitute(s@, pat@, k),
        decreases s.len() - i,
    {
        let ghost t = s@.skip(i as int);
        if pat.len() > 0 && matches_here(s, i, pat) {
            assert(t.skip(pat@.len() as int) =~= s@.skip(i + pat@.len()));
            out.push((' ', Some(k)));
            i = i + pat.len();
        } else {
            assert(t.skip(1) =~= s@.skip(i + 1));
            assert(t[0] == s@[i as int]);
            out.push(s[i]);
            i = i + 1;
        }
        assert(out@ + substitute(s@.skip(i as int), pat@, k) =~= substitute(s@, pat@, k));
    }
    assert(s@.skip(i as int) =~= Seq::<Piece>::empty());
    assert(out@ + substitute(s@.skip(i as int), pat@, k) =~= out@);
    out
}

/// The image markup for an emote, with its URL and label escaped.
pub fn render_fragment(url: &str, label: &str) -> (r: String)
    ensures
        r@ == fragment(url@, label@),
{
    let mut r = String::new();
    push_text(&mut r, "<img class=\"emoji\" src=\"");
    let u = sanitize(url);
    push_text(&mut r, u.as_str());
    push_text(&mut r, "\" data-emoji=\"");
    let l = sanitize(label);
    push_text(&mut r, l.as_str());
    push_text(&mut r, "\" alt=\"");
    push_text(&mut r, l.as_str());
    push_text(&mut r, "\" />");
    r
}

fn render_pieces(ps: &Vec<Piece>, emojis: &Vec<(String, String, String)>) -> (r: String)
    ensures
        r@ == render(ps@, fragments(emojis@.map_values(|e: (String, String, String)| media_view(e)))),
{
    let ghost media = emojis@.map_values(|e: (String, String, String)| media_view(e));
    let ghost fs = fragments(media);
    let mut r = String::new();
    let mut i: usize = 0;
    while i < ps.len()
        invariant
            i <= ps@.len(),
            media == emojis@.map_values(|e: (String, String, String)| media_view(e)),
            fs == fragments(media),
            r@ == render(ps@.take(i as int), fs),
        decreases ps.len() - i,
    {
        assert(ps@.take(i as int + 1).drop_last() =~= ps@.take(i as int));
        let p = ps[i];
        match p.1 {
            None => {
                r.push(p.0);
            },
            Some(k) => {
                if k < emojis.len() {
                    let e = &emojis[k];
                    let f = render_fragment(e.1.as_str(), e.2.as_str());
                    assert(media[k as int] == media_view(emojis@[k as int]));
                    push_text(&mut r, f.as_str());
                }
            },
        }
        i = i + 1;
    }
    assert(ps@.take(ps@.len() as int) =~= ps@);
    r
}

/// Substitutes each emote's text in an already escaped body by its image markup:
/// first every occurrence of every emote becomes a placeholder, emote by emote,
/// then each placeholder becomes its markup.
pub fn apply_inline_media(body: &str, emojis: &Vec<(String, String, String)>) -> (r: String)
    ensures
        r@ == inline_media(body@, emojis@.map_values(|e: (String, String, String)| media_view(e))),
{
    let ghost media = emojis@.map_values(|e: (String, String, String)| media_view(e));
    let mut pieces = pieces_of(body);
    let mut k: usize = 0;
    while k < emojis.len()
        invariant
            k <= emojis@.len(),
            media == emojis@.map_values(|e: (String, String, String)| media_view(e)),
            pieces@ == substitute_upto(text_pieces(body@), media, k as nat),
        decreases emojis.len() - k,
    {
        let e = &emojis[k];
        let pat = chars_of(e.0.as_str());
        assert(media[k as int] == media_view(emojis@[k as int]));
        pieces = substitute_pass(&pieces, &pat, k);
        k = k + 1;
    }
    render_pieces(&pieces, emojis)
}

/// Every `<` is followed by an `i`: the only markup is the opening of an image.
pub open spec fn angle_safe(s: Seq<char>) -> bool {
    forall|i: int| 0 <= i < s.len() && #[trigger] s[i] == '<' ==> i + 1 < s.len() && s[i + 1] == 'i'
}

/// No text piece is a `<`.
pub open spec fn text_safe(ps: Seq<Piece>) -> bool {
    forall|i: int| 0 <= i < ps.len() && (#[trigger] ps[i]).1 is None ==> ps[i].0 != '<'
}

pub proof fn lemma_angle_safe_concat(a: Seq<char>, b: Seq<char>)
    requires
        angle_safe(a),
        angle_safe(b),
    ensures
        angle_safe(a + b),
{
    assert forall|i: int| 0 <= i < (a + b).len() && #[trigger] (a + b)[i] == '<' implies i + 1 < (a + b).len()
        && (a + b)[i + 1] == 'i' by {
        if i < a.len() {
            assert(a[i] == '<');
        } else {
            assert(b[i - a.len()] == '<');
        }
    }
}

pub proof fn lemma_fragment_angle_safe(url: Seq<char>, label: Seq<char>)
    ensures
        angle_safe(fragment(url, label)),
{
    reveal_strlit("<img class=\"emoji\" src=\"");
    reveal_strlit("\" data-emoji=\"");
    reveal_strlit("\" alt=\"");
    reveal_strlit("\" />");
    let l1 = "<img class=\"emoji\" src=\""@;
    let l2 = "\" data-emoji=\""@;
    let l3 = "\" alt=\""@;
    let l4 = "\" />"@;
    lemma_escape_html_no_angle(url);
    lemma_escape_html_no_angle(label);
    assert(angle_safe(l1));
    assert(angle_safe(l2));
    assert(angle_safe(l3));
    assert(angle_safe(l4));
    let eu = escape_html(url);
    let el = escape_html(label);
    lemma_angle_safe_concat(l1, eu);
    lemma_angle_safe_concat(l1 + eu, l2);
    lemma_angle_safe_concat(l1 + eu + l2, el);
    lemma_angle_safe_concat(l1 + eu + l2 + el, l3);
    lemma_angle_safe_concat(l1 + eu + l2 + el + l3, el);
    lemma_angle_safe_concat(l1 + eu + l2 + el + l3 + el, l4);
}

pub proof fn lemma_substitute_text_safe(s: Seq<Piece>, pat: Seq<char>, k: usize)
    requires
        text_safe(s),
    ensures
        text_safe(substitute(s, pat, k)),
    decreases s.len(),
{
    if s.len() > 0 {
        if pat.len() > 0 && matches_at(s, pat) {
            let t = s.skip(pat.len() as int);
            assert forall|i: int| 0 <= i < t.len() && (#[trigger] t[i]).1 is None implies t[i].0
                != '<' by {
                assert(t[i] == s[i + pat.len()]);
            }
            lemma_substitute_text_safe(t, pat, k);
            let r = seq![media_piece(k)] + substitute(t, pat, k);
            assert forall|i: int| 0 <= i < r.len() && (#[trigger] r[i]).1 is None implies r[i].0
                != '<' by {
                assert(r[i] == substitute(t, pat, k)[i - 1]);
            }
        } else {
            let t = s.skip(1);
            assert forall|i: int| 0 <= i < t.len() && (#[trigger] t[i]).1 is None implies t[i].0
                != '<' by {
                assert(t[i] == s[i + 1]);
            }
            lemma_substitute_text_safe(t, pat, k);
            let r = seq![s[0]] + substitute(t, pat, k);
            assert forall|i: int| 0 <= i < r.len() && (#[trigger] r[i]).1 is None implies r[i].0
                != '<' by {
                if i > 0 {
                    assert(r[i] == substitute(t, pat, k)[i - 1]);
                }
            }
        }
    }
}

pub proof fn lemma_substitute_upto_text_safe(
    s: Seq<Piece>,
    media: Seq<(Seq<char>, Seq<char>, Seq<char>)>,
    n: nat,
)
    requires
        text_safe(s),
    ensures
        text_safe(substitute_upto(s, media, n)),
    decreases n,
{
    if n > 0 {
        lemma_substitute_upto_text_safe(s, media, (n - 1) as nat);
        lemma_substitute_text_safe(
            substitute_upto(s, media, (n - 1) as nat),
            media[n - 1].0,
            (n - 1) as usize,
        );
    }
}

pub proof fn lemma_render_angle_safe(ps: Seq<Piece>, frags: Seq<Seq<char>>)
    requires
        text_safe(ps),
        forall|k: int| 0 <= k < frags.len() ==> angle_safe(#[trigger] frags[k]),
    ensures
        angle_safe(render(ps, frags)),
    decreases ps.len(),
{
    if ps.len() > 0 {
        let init = ps.drop_last();
        assert forall|i: int| 0 <= i < init.len() && (#[trigger] init[i]).1 is None implies init[i].0
            != '<' by {
            assert(init[i] == ps[i]);
        }
        lemma_render_angle_safe(init, frags);
        let p = ps.last();
        assert(ps[ps.len() - 1] == p);
        assert(angle_safe(piece_text(p, frags)));
        lemma_angle_safe_concat(render(init, frags), piece_text(p, frags));
    }
}

/// A body whose characters were escaped keeps every `<` at the start of an
/// image fragment once its media are substituted.
pub proof fn lemma_inline_media_angle_safe(body: Seq<char>, media: Seq<(Seq<char>, Seq<char>, Seq<char>)>)
    requires
        no_open_angle(body),
    ensures
        angle_safe(inline_media(body, media)),
{
    lemma_text_pieces(body);
    let ps = text_pieces(body);
    assert forall|i: int| 0 <= i < ps.len() && (#[trigger] ps[i]).1 is None implies ps[i].0 != '<' by {
        assert(ps[i] == text_piece(body[i]));
    }
    lemma_substitute_upto_text_safe(ps, media, media.len());
    let frags = fragments(media);
    assert forall|k: int| 0 <= k < frags.len() implies angle_safe(#[trigger] frags[k]) by {
        lemma_fragment_angle_safe(media[k].1, media[k].2);
    }
    lemma_render_angle_safe(substitute_upto(ps, media, media.len()), frags);
}

/// Text in which every `<` opens an image holds no `<script>`.
pub proof fn lemma_angle_safe_no_script(s: Seq<char>)
    requires
        angle_safe(s),
    ensures
        !contains_text(s, "<script>"@),
{
    reveal_strlit("<script>");
    if contains_text(s, "<script>"@) {
        let i = choose|i: int| occurs_at(s, "<script>"@, i);
        assert(s.subrange(i, i + 8)[0] == '<');
        assert(s.subrange(i, i + 8)[1] == 's');
        assert(s[i] == '<');
        assert(s[i + 1] == 's');
    }
}

/// A placeholder is never part of a match: substitution works on the text on
/// either side of it and leaves it in place.
pub proof fn lemma_placeholder_opaque(a: Seq<Piece>, k: usize, b: Seq<Piece>, pat: Seq<char>, j: usize)
    ensures
        substitute(a + seq![media_piece(k)] + b, pat, j) == substitute(a, pat, j) + seq![media_piece(k)]
            + substitute(b, pat, j),
    decreases a.len(),
{
    let s = a + seq![media_piece(k)] + b;
    if a.len() == 0 {
        assert(s[0] == media_piece(k));
        if pat.len() > 0 {
            assert(s[0] != text_piece(pat[0]));
        }
        assert(s.skip(1) =~= b);
        assert(a =~= Seq::<Piece>::empty());
        assert(substitute(a, pat, j) =~= Seq::<Piece>::empty());
        assert(substitute(s, pat, j) =~= substitute(a, pat, j) + seq![media_piece(k)] + substitute(b, pat, j));
    } else {
        if pat.len() > 0 && matches_at(s, pat) {
            if pat.len() > a.len() {
                assert(s[a.len() as int] == media_piece(k));
                assert(s[a.len() as int] == text_piece(pat[a.len() as int]));
            }
            assert forall|i: int| 0 <= i < pat.len() implies a[i] == text_piece(pat[i]) by {
                assert(s[i] == a[i]);
            }
            assert(matches_at(a, pat));
            let a2 = a.skip(pat.len() as int);
            assert(s.skip(pat.len() as int) =~= a2 + seq![media_piece(k)] + b);
            lemma_placeholder_opaque(a2, k, b, pat, j);
            assert(substitute(s, pat, j) =~= substitute(a, pat, j) + seq![media_piece(k)] + substitute(b, pat, j));
        } else {
            if pat.len() > 0 && matches_at(a, pat) {
                assert forall|i: int| 0 <= i < pat.len() implies s[i] == text_piece(pat[i]) by {
                    assert(s[i] == a[i]);
                }
                assert(matches_at(s, pat));
            }
            let a2 = a.skip(1);
            assert(s.skip(1) =~= a2 + seq![media_piece(k)] + b);
            assert(s[0] == a[0]);
            lemma_placeholder_opaque(a2, k, b, pat, j);
            assert(substitute(s, pat, j) =~= substitute(a, pat, j) + seq![media_piece(k)] + substitute(b, pat, j));
        }
    }
}

} // verus!
