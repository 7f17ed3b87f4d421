//! Templates with substitution spans: a literal text in which pairs of
//! delimiter occurrences mark the places where a word goes.
use vstd::prelude::*;

verus! {

/// `d` occurs in `s` starting at position `i`.
pub open spec fn occurs_at(s: Seq<char>, d: Seq<char>, i: int) -> bool {
    0 <= i && i + d.len() <= s.len() && s.subrange(i, i + d.len()) == d
}

/// The positions of the non-overlapping occurrences of `d` in `s` found by a
/// left-to-right scan that starts at `i`: after a match the scan resumes right
/// behind it.
pub open spec fn scan_from(s: Seq<char>, d: Seq<char>, i: int) -> Seq<int>
    decreases s.len() - i,
{
    if d.len() == 0 || i < 0 || i + d.len() > s.len() {
        Seq::empty()
    } else if occurs_at(s, d, i) {
        seq![i] + scan_from(s, d, i + d.len())
    } else {
        scan_from(s, d, i + 1)
    }
}

/// The positions of the non-overlapping occurrences of `d` in `s`, left to right.
pub open spec fn occurrences(s: Seq<char>, d: Seq<char>) -> Seq<int> {
    scan_from(s, d, 0)
}

/// What a compiled template stands for: its literal text, the positions of the
/// delimiter occurrences in it, and the delimiter's length.
pub struct TemplateModel {
    pub text: Seq<char>,
    pub offsets: Seq<int>,
    pub delim_len: int,
}

impl TemplateModel {
    /// Number of substitution spans: one per pair of delimiter occurrences.
    pub open spec fn spans(self) -> int {
        self.offsets.len() as int / 2
    }

    /// Offsets are paired, increasing, apart by at least a delimiter, and inside the text.
    pub open spec fn valid(self) -> bool {
        &&& self.delim_len > 0
        &&& self.offsets.len() % 2 == 0
        &&& forall|k: int|
            0 <= k < self.offsets.len() ==> 0 <= #[trigger] self.offsets[k] && self.offsets[k]
                + self.delim_len <= self.text.len()
        &&& forall|k: int|
            0 <= k && k + 1 < self.offsets.len() ==> #[trigger] self.offsets[k] + self.delim_len
                <= self.offsets[k + 1]
    }
}

/// The template that `raw` compiles to under delimiter `d`.
pub open spec fn template_model(raw: Seq<char>, d: Seq<char>) -> TemplateModel {
    TemplateModel { text: raw, offsets: occurrences(raw, d), delim_len: d.len() as int }
}

/// The text of `m` from position `start` on, with the spans from pair `k` on
/// replaced by `w`.
pub open spec fn fill_from(m: TemplateModel, w: Seq<char>, k: int, start: int) -> Seq<char>
    decreases m.offsets.len() - k,
{
    if k < 0 || k + 2 > m.offsets.len() {
        m.text.subrange(start, m.text.len() as int)
    } else {
        m.text.subrange(start, m.offsets[k]) + w + fill_from(
            m,
            w,
            k + 2,
            m.offsets[k + 1] + m.delim_len,
        )
    }
}

/// The text of `m` with every substitution span, delimiters included, replaced by `w`.
pub open spec fn materialized(m: TemplateModel, w: Seq<char>) -> Seq<char> {
    fill_from(m, w, 0, 0)
}

/// Every position that a scan from `i` reports is a match at or after `i`, and
/// consecutive positions are at least one delimiter apart.
pub proof fn lemma_scan_ordered(s: Seq<char>, d: Seq<char>, i: int)
    requires
        d.len() > 0,
        0 <= i,
    ensures
        forall|k: int|
            0 <= k < scan_from(s, d, i).len() ==> i <= #[trigger] scan_from(s, d, i)[k]
                && occurs_at(s, d, scan_from(s, d, i)[k]),
        forall|k: int|
            0 <= k && k + 1 < scan_from(s, d, i).len() ==> #[trigger] scan_from(s, d, i)[k]
                + d.len() <= scan_from(s, d, i)[k + 1],
    decreases s.len() - i,
{
    if i + d.len() > s.len() {
        assert(scan_from(s, d, i).len() == 0);
    } else if occurs_at(s, d, i) {
        lemma_scan_ordered(s, d, i + d.len());
        let r = scan_from(s, d, i);
        let t = scan_from(s, d, i + d.len());
        assert(r == seq![i] + t);
        assert forall|k: int| 0 <= k < r.len() implies i <= #[trigger] r[k] && occurs_at(
            s,
            d,
            r[k],
        ) by {
            if k > 0 {
                assert(r[k] == t[k - 1]);
            }
        }
        assert forall|k: int| 0 <= k && k + 1 < r.len() implies #[trigger] r[k] + d.len() <= r[k
            + 1] by {
            if k > 0 {
                assert(r[k] == t[k - 1]);
            }
            assert(r[k + 1] == t[k]);
        }
    } else {
        lemma_scan_ordered(s, d, i + 1);
        assert(scan_from(s, d, i) == scan_from(s, d, i + 1));
    }
}

/// A compiled template with an even number of delimiter occurrences is valid.
pub proof fn lemma_template_model_valid(raw: Seq<char>, d: Seq<char>)
    requires
        d.len() > 0,
        occurrences(raw, d).len() % 2 == 0,
    ensures
        template_model(raw, d).valid(),
{
    lemma_scan_ordered(raw, d, 0);
}

/// A scan that starts at `from` passes over every position before `to` that
/// does not hold the delimiter's first character.
pub proof fn lemma_scan_skips(s: Seq<char>, d: Seq<char>, from: int, to: int)
    requires
        d.len() > 0,
        0 <= from <= to,
        forall|p: int| from <= p < to && p < s.len() ==> s[p] != d[0],
    ensures
        scan_from(s, d, from) == scan_from(s, d, to),
    decreases to - from,
{
    if from == to {
    } else if from + d.len() > s.len() {
        assert(scan_from(s, d, from).len() == 0);
        assert(scan_from(s, d, to).len() == 0);
    } else {
        assert(!occurs_at(s, d, from)) by {
            if occurs_at(s, d, from) {
                assert(s.subrange(from, from + d.len())[0] == s[from]);
            }
        }
        lemma_scan_skips(s, d, from + 1, to);
    }
}

/// Where the delimiter does not occur at all, materializing gives back the
/// template's text unchanged, whatever the word.
pub proof fn lemma_no_delimiter_keeps_text(raw: Seq<char>, d: Seq<char>, w: Seq<char>)
    requires
        d.len() > 0,
        occurrences(raw, d).len() == 0,
    ensures
        materialized(template_model(raw, d), w) == raw,
{
    assert(raw.subrange(0, raw.len() as int) =~= raw);
}

/// Round trip: in `a + d + x + d + b`, where no character of `a`, `x` or `b` is
/// the delimiter's first character, the two delimiters enclose one span, and
/// materializing with `w` gives `a + w + b`.
pub proof fn lemma_round_trip(a: Seq<char>, x: Seq<char>, b: Seq<char>, d: Seq<char>, w: Seq<char>)
    requires
        d.len() > 0,
        forall|i: int| 0 <= i < a.len() ==> a[i] != d[0],
        forall|i: int| 0 <= i < x.len() ==> x[i] != d[0],
        forall|i: int| 0 <= i < b.len() ==> b[i] != d[0],
    ensures
        occurrences(a + d + x + d + b, d) == seq![a.len() as int, a.len() + d.len() + x.len() as int],
        materialized(template_model(a + d + x + d + b, d), w) == a + w + b,
{
    let raw = a + d + x + d + b;
    let p = a.len() as int;
    let q = a.len() + d.len() + x.len() as int;
    let e = q + d.len() as int;
    assert forall|i: int| 0 <= i < p implies raw[i] != d[0] by {
        assert(raw[i] == a[i]);
    }
    lemma_scan_skips(raw, d, 0, p);
    assert(raw.subrange(p, p + d.len()) =~= d);
    assert(occurs_at(raw, d, p));
    assert forall|i: int| p + d.len() <= i < q implies raw[i] != d[0] by {
        assert(raw[i] == x[i - p - d.len()]);
    }
    lemma_scan_skips(raw, d, p + d.len(), q);
    assert(raw.subrange(q, e) =~= d);
    assert(occurs_at(raw, d, q));
    assert forall|i: int| e <= i < raw.len() implies raw[i] != d[0] by {
        assert(raw[i] == b[i - e]);
    }
    lemma_scan_skips(raw, d, e, raw.len() as int);
    assert(scan_from(raw, d, raw.len() as int).len() == 0);
    assert(scan_from(raw, d, q) =~= seq![q]);
    assert(occurrences(raw, d) =~= seq![p, q]);
    let m = template_model(raw, d);
    assert(fill_from(m, w, 2, e) == raw.subrange(e, raw.len() as int));
    assert(raw.subrange(0, p) =~= a);
    assert(raw.subrange(e, raw.len() as int) =~= b);
}

/// Compiling the same text under the same delimiter twice gives templates that
/// materialize every word identically.
pub proof fn lemma_compile_deterministic(
    raw: Seq<char>,
    d: Seq<char>,
    first: TemplateModel,
    second: TemplateModel,
)
    requires
        first == template_model(raw, d),
        second == template_model(raw, d),
    ensures
        forall|w: Seq<char>| materialized(first, w) == #[trigger] materialized(second, w),
{
}

/// The number of characters, delimiters included, that the spans from pair
/// `k` on cover in the template's text.
pub open spec fn span_width_from(m: TemplateModel, k: int) -> int
    decreases m.offsets.len() - k,
{
    if k < 0 || k + 2 > m.offsets.len() {
        0
    } else {
        m.offsets[k + 1] + m.delim_len - m.offsets[k] + span_width_from(m, k + 2)
    }
}

proof fn lemma_fill_from_len(m: TemplateModel, w: Seq<char>, k: int, start: int)
    requires
        m.valid(),
        0 <= k <= m.offsets.len(),
        k % 2 == 0,
        0 <= start <= m.text.len(),
        k < m.offsets.len() ==> start <= m.offsets[k],
    ensures
        fill_from(m, w, k, start).len() == m.text.len() - start - span_width_from(m, k) + w.len()
            * ((m.offsets.len() - k) / 2),
    decreases m.offsets.len() - k,
{
    if k + 2 > m.offsets.len() {
        assert(k == m.offsets.len());
        assert(span_width_from(m, k) == 0);
        assert((m.offsets.len() - k) / 2 == 0);
        assert(w.len() * 0 == 0);
        assert(fill_from(m, w, k, start) == m.text.subrange(start, m.text.len() as int));
    } else {
        let next = m.offsets[k + 1] + m.delim_len;
        if k + 2 < m.offsets.len() {
            assert(m.offsets[k + 1] + m.delim_len <= m.offsets[k + 2]);
        }
        assert(m.offsets[k] + m.delim_len <= m.offsets[k + 1]);
        lemma_fill_from_len(m, w, k + 2, next);
        let c = (m.offsets.len() - k - 2) / 2;
        assert((m.offsets.len() - k) / 2 == c + 1);
        assert(w.len() * (c + 1) == w.len() * c + w.len()) by (nonlinear_arith);
        assert(w.len() * ((m.offsets.len() - k) / 2) == w.len() * c + w.len());
        assert(fill_from(m, w, k, start) == m.text.subrange(start, m.offsets[k]) + w + fill_from(
            m,
            w,
            k + 2,
            next,
        ));
        assert(span_width_from(m, k) == next - m.offsets[k] + span_width_from(m, k + 2));
    }
}

/// Materializing removes the text of every span, delimiters included, and puts
/// the word in once per span: the length of the result is the text's length,
/// less what the spans cover, plus the word's length times the number of spans.
pub proof fn lemma_materialized_len(m: TemplateModel, w: Seq<char>)
    requires
        m.valid(),
    ensures
        materialized(m, w).len() == m.text.len() - span_width_from(m, 0) + w.len() * m.spans(),
{
    lemma_fill_from_len(m, w, 0, 0);
}

/// Raised when a template holds an odd number of delimiter occurrences, so that
/// its substitution spans cannot be paired up.
#[derive(Debug, Clone, Copy, PartialEq, Eq, Structural)]
pub struct MalformedTemplate;

/// A template compiled once and then filled with any number of words.
pub struct CompiledTemplate {
    raw: String,
    offsets: Vec<usize>,
    delim_len: usize,
}

impl View for CompiledTemplate {
    type V = TemplateModel;

    closed spec fn view(&self) -> TemplateModel {
        TemplateModel {
            text: self.raw@,
            offsets: self.offsets@.map_values(|x: usize| x as int),
            delim_len: self.delim_len as int,
        }
    }
}

impl CompiledTemplate {
    #[verifier::type_invariant]
    closed spec fn inv(&self) -> bool {
        self@.valid()
    }

    /// Number of substitution spans.
    pub fn spans(&self) -> (r: usize)
        ensures
            r == self@.spans(),
    {
        self.offsets.len() / 2
    }

    /// The literal text the template was compiled from.
    pub fn raw(&self) -> (r: &str)
        ensures
            r@ == self@.text,
    {
        self.raw.as_str()
    }

    /// The template's text with every span replaced by `word`.
    pub fn materialize(&self, word: &str) -> (r: String)
        ensures
            r@ == materialized(self@, word@),
    {
        proof {
            use_type_invariant(self);
        }
        let ghost m = self@;
        let text = self.raw.as_str();
        let len = text.unicode_len();
        let n = self.offsets.len();
        let mut out = String::new();
        let mut k: usize = 0;
        let mut start: usize = 0;
        while k < n
            invariant
                m == self@,
                m.valid(),
                text@ == m.text,
                len == m.text.len(),
                n == m.offsets.len(),
                k % 2 == 0,
                k <= n,
                start <= len,
                k < n ==> start <= m.offsets[k as int],
                out@ + fill_from(m, word@, k as int, start as int) == materialized(m, word@),
            decreases n - k,
        {
            let a = self.offsets[k];
            let b = self.offsets[k + 1];
            assert(m.offsets[k as int] == a as int);
            assert(m.offsets[k + 1] == b as int);
            let ghost before = out@;
            out.append(text.substring_char(start, a));
            out.append(word);
            let next = b + self.delim_len;
            proof {
                assert(fill_from(m, word@, k as int, start as int) == m.text.subrange(
                    start as int,
                    a as int,
                ) + word@ + fill_from(m, word@, k + 2, next as int));
                assert(out@ == before + m.text.subrange(start as int, a as int) + word@);
                assert(out@ + fill_from(m, word@, k + 2, next as int) =~= before + fill_from(
                    m,
                    word@,
                    k as int,
                    start as int,
                ));
                if k + 2 < n {
                    assert(m.offsets[k + 1] + m.delim_len <= m.offsets[k + 2]);
                }
            }
            start = next;
            k = k + 2;
        }
        let ghost before = out@;
        out.append(text.substring_char(start, len));
        assert(out@ =~= before + fill_from(m, word@, k as int, start as int));
        out
    }
}

/// Whether `d` occurs in `s` at position `i`.
fn matches_at(s: &Vec<char>, d: &Vec<char>, i: usize) -> (r: bool)
    ensures
        r == occurs_at(s@, d@, i as int),
{
    if i > s.len() || d.len() > s.len() - i {
        return false;
    }
    let mut j: usize = 0;
    while j < d.len()
        invariant
            i + d.len() <= s.len(),
            j <= d.len(),
            forall|t: int| 0 <= t < j ==> s@[i + t] == d@[t],
        decreases d.len() - j,
    {
        if s[i + j] != d[j] {
            assert(s@.subrange(i as int, i + d.len())[j as int] != d@[j as int]);
            return false;
        }
        j = j + 1;
    }
    assert(s@.subrange(i as int, i + d.len()) =~= d@);
    true
}

/// The positions of the non-overlapping occurrences of `d` in `s`, left to right.
pub fn find_occurrences(s: &Vec<char>, d: &Vec<char>) -> (r: Vec<usize>)
    requires
        d@.len() > 0,
    ensures
        r@.map_values(|x: usize| x as int) == occurrences(s@, d@),
{
    let mut out: Vec<usize> = Vec::new();
    let mut i: usize = 0;
    while i < s.len() && d.len() <= s.len() - i
        invariant
            d@.len() > 0,
            i <= s.len(),
            out@.map_values(|x: usize| x as int) + scan_from(s@, d@, i as int) == occurrences(
                s@,
                d@,
            ),
        decreases s.len() - i,
    {
        let ghost before = out@.map_values(|x: usize| x as int);
        if matches_at(s, d, i) {
            out.push(i);
            assert(out@.map_values(|x: usize| x as int) =~= before.push(i as int));
            assert(before.push(i as int) + scan_from(s@, d@, i + d.len()) =~= before + (seq![
                i as int,
            ] + scan_from(s@, d@, i + d.len())));
            i = i + d.len();
        } else {
            i = i + 1;
        }
    }
    assert(scan_from(s@, d@, i as int) =~= Seq::<int>::empty());
    assert(out@.map_values(|x: usize| x as int) + Seq::<int>::empty() =~= out@.map_values(
        |x: usize| x as int,
    ));
    out
}

/// Compiles `raw` under delimiter `delim`: fails when the delimiter occurs an
/// odd number of times, else yields one substitution span per pair of occurrences.
pub fn compile(raw: &str, delim: &str) -> (r: Result<CompiledTemplate, MalformedTemplate>)
    requires
        delim@.len() > 0,
    ensures
        r is Err <==> occurrences(raw@, delim@).len() % 2 == 1,
        r matches Ok(t) ==> t@ == template_model(raw@, delim@) && t@.spans() == occurrences(
            raw@,
            delim@,
        ).len() / 2,
{
    let text = chars_of(raw);
    let d = chars_of(delim);
    let offsets = find_occurrences(&text, &d);
    if offsets.len() % 2 != 0 {
        return Err(MalformedTemplate);
    }
    proof {
        lemma_template_model_valid(raw@, delim@);
    }
    let t = CompiledTemplate { raw: raw.to_owned(), offsets, delim_len: d.len() };
    assert(t@ =~= template_model(raw@, delim@));
    Ok(t)
}

/// The characters of `s`, in order.
pub fn chars_of(s: &str) -> (r: Vec<char>)
    ensures
        r@ == s@,
{
    let mut out: Vec<char> = Vec::new();
    for c in it: s.chars()
        invariant
            out@ == it.seq().subrange(0, it.index() as int),
            it.seq() == s@,
    {
        out.push(c);
    }
    out
}

} // verus!
