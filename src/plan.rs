//! The substitution plan of a run: compiled header keys and values and an
//! optional compiled body, and the concrete request it yields for one word.
use vstd::prelude::*;
use crate::template::{
    chars_of, compile, find_occurrences, lemma_scan_ordered, materialized, occurrences,
    template_model, CompiledTemplate, MalformedTemplate, TemplateModel,
};

verus! {

/// The text that separates a header's key from its value.
pub open spec fn header_separator() -> Seq<char> {
    seq![':', ' ']
}

/// A header written `Key: Value`, split at its separator; `None` unless the
/// separator occurs exactly once.
pub open spec fn header_parts(raw: Seq<char>) -> Option<(Seq<char>, Seq<char>)> {
    let occ = occurrences(raw, header_separator());
    if occ.len() == 1 {
        Some((raw.subrange(0, occ[0]), raw.subrange(occ[0] + 2, raw.len() as int)))
    } else {
        None
    }
}

/// `raw` compiles under `d`: the delimiter occurs an even number of times.
pub open spec fn well_paired(raw: Seq<char>, d: Seq<char>) -> bool {
    occurrences(raw, d).len() % 2 == 0
}

/// The compiled key and value templates of the well-formed headers among `hs`,
/// in order; `None` when one of them has a malformed key or value.
pub open spec fn compiled_headers(hs: Seq<Seq<char>>, d: Seq<char>) -> Option<
    Seq<(TemplateModel, TemplateModel)>,
>
    decreases hs.len(),
{
    if hs.len() == 0 {
        Some(Seq::empty())
    } else {
        match compiled_headers(hs.drop_last(), d) {
            None => None,
            Some(prev) => match header_parts(hs.last()) {
                None => Some(prev),
                Some((k, v)) => if well_paired(k, d) && well_paired(v, d) {
                    Some(prev.push((template_model(k, d), template_model(v, d))))
                } else {
                    None
                },
            },
        }
    }
}

/// The compiled body template, if there is a body; `None` when it is malformed.
pub open spec fn compiled_body(body: Option<Seq<char>>, d: Seq<char>) -> Option<
    Option<TemplateModel>,
> {
    match body {
        None => Some(None),
        Some(b) => if well_paired(b, d) {
            Some(Some(template_model(b, d)))
        } else {
            None
        },
    }
}

/// What a substitution plan stands for.
pub struct PlanModel {
    pub headers: Seq<(TemplateModel, TemplateModel)>,
    pub body: Option<TemplateModel>,
}

/// What a concrete request stands for.
pub struct RequestModel {
    pub word: Seq<char>,
    pub headers: Seq<(Seq<char>, Seq<char>)>,
    pub body: Option<Seq<char>>,
}

/// The request that plan `p` yields for word `w`: every header key and value
/// and the body materialized with `w`.
pub open spec fn request_for(p: PlanModel, w: Seq<char>) -> RequestModel {
    RequestModel {
        word: w,
        headers: p.headers.map_values(
            |h: (TemplateModel, TemplateModel)| (materialized(h.0, w), materialized(h.1, w)),
        ),
        body: match p.body {
            None => None,
            Some(b) => Some(materialized(b, w)),
        },
    }
}

/// The view of a `Vec` of compiled headers.
pub open spec fn header_models(hs: Seq<(CompiledTemplate, CompiledTemplate)>) -> Seq<
    (TemplateModel, TemplateModel),
> {
    hs.map_values(|h: (CompiledTemplate, CompiledTemplate)| (h.0@, h.1@))
}

/// The view of an optional compiled body.
pub open spec fn body_model(b: Option<CompiledTemplate>) -> Option<TemplateModel> {
    match b {
        None => None,
        Some(t) => Some(t@),
    }
}

/// Every compiled template a run needs: the header keys and values and the body.
pub struct SubstitutionPlan {
    headers: Vec<(CompiledTemplate, CompiledTemplate)>,
    body: Option<CompiledTemplate>,
}

impl View for SubstitutionPlan {
    type V = PlanModel;

    closed spec fn view(&self) -> PlanModel {
        PlanModel { headers: header_models(self.headers@), body: body_model(self.body) }
    }
}

/// A request ready to send: the word it was made for, its headers in order,
/// and its body, if any.
pub struct Request {
    pub word: String,
    pub headers: Vec<(String, String)>,
    pub body: Option<String>,
}

impl View for Request {
    type V = RequestModel;

    open spec fn view(&self) -> RequestModel {
        RequestModel {
            word: self.word@,
            headers: self.headers@.map_values(|h: (String, String)| (h.0@, h.1@)),
            body: match self.body {
                None => None,
                Some(b) => Some(b@),
            },
        }
    }
}

/// Splits a header written `Key: Value` at its separator. A header in which the
/// separator does not occur exactly once yields `None`.
pub fn split_header(raw: &str) -> (r: Option<(String, String)>)
    ensures
        match r {
            Some((k, v)) => header_parts(raw@) == Some((k@, v@)),
            None => header_parts(raw@) is None,
        },
{
    let text = chars_of(raw);
    let sep: Vec<char> = vec![':', ' '];
    assert(sep@ =~= header_separator());
    let found = find_occurrences(&text, &sep);
    if found.len() != 1 {
        return None;
    }
    proof {
        lemma_scan_ordered(raw@, header_separator(), 0);
        assert(occurrences(raw@, header_separator())[0] == found@[0] as int);
    }
    let at = found[0];
    let len = raw.unicode_len();
    let key = raw.substring_char(0, at).to_owned();
    let value = raw.substring_char(at + 2, len).to_owned();
    Some((key, value))
}

/// A malformed key or value among the first `i` headers stays malformed in
/// every longer prefix.
proof fn lemma_malformed_prefix_persists(hs: Seq<Seq<char>>, d: Seq<char>, i: int, j: int)
    requires
        0 <= i <= j <= hs.len(),
        compiled_headers(hs.take(i), d) is None,
    ensures
        compiled_headers(hs.take(j), d) is None,
    decreases j - i,
{
    if i < j {
        lemma_malformed_prefix_persists(hs, d, i, j - 1);
        assert(hs.take(j).drop_last() =~= hs.take(j - 1));
    }
}

/// Compiles the key and the value of every header written `Key: Value`,
/// skipping headers whose separator does not occur exactly once; fails when a
/// kept key or value holds an odd number of delimiters.
pub fn get_headers(raw_headers: &Vec<String>, delim: &str) -> (r: Result<
    Vec<(CompiledTemplate, CompiledTemplate)>,
    MalformedTemplate,
>)
    requires
        delim@.len() > 0,
    ensures
        match r {
            Ok(hs) => compiled_headers(raw_headers@.map_values(|h: String| h@), delim@) == Some(
                header_models(hs@),
            ),
            Err(_) => compiled_headers(raw_headers@.map_values(|h: String| h@), delim@) is None,
        },
{
    let ghost all = raw_headers@.map_values(|h: String| h@);
    let mut out: Vec<(CompiledTemplate, CompiledTemplate)> = Vec::new();
    let mut i: usize = 0;
    while i < raw_headers.len()
        invariant
            delim@.len() > 0,
            all == raw_headers@.map_values(|h: String| h@),
            i <= raw_headers.len(),
            compiled_headers(all.take(i as int), delim@) == Some(header_models(out@)),
        decreases raw_headers.len() - i,
    {
        assert(all.take(i + 1).drop_last() =~= all.take(i as int));
        assert(all.take(i + 1).last() == raw_headers@[i as int]@);
        match split_header(raw_headers[i].as_str()) {
            None => {},
            Some((k, v)) => {
                let key = compile(k.as_str(), delim);
                let value = compile(v.as_str(), delim);
                match (key, value) {
                    (Ok(kt), Ok(vt)) => {
                        let ghost before = out@;
                        out.push((kt, vt));
                        assert(header_models(out@) =~= header_models(before).push(
                            (kt@, vt@),
                        ));
                    },
                    _ => {
                        proof {
                            lemma_malformed_prefix_persists(
                                all,
                                delim@,
                                i + 1,
                                raw_headers.len() as int,
                            );
                            assert(all.take(raw_headers.len() as int) =~= all);
                        }
                        return Err(MalformedTemplate);
                    },
                }
            },
        }
        i = i + 1;
    }
    assert(all.take(i as int) =~= all);
    Ok(out)
}

/// Compiles the body, if there is one; fails when it holds an odd number of
/// delimiters.
pub fn get_body(body: &Option<String>, delim: &str) -> (r: Result<
    Option<CompiledTemplate>,
    MalformedTemplate,
>)
    requires
        delim@.len() > 0,
    ensures
        match r {
            Ok(b) => compiled_body(
                match body {
                    None => None,
                    Some(s) => Some(s@),
                },
                delim@,
            ) == Some(body_model(b)),
            Err(_) => compiled_body(
                match body {
                    None => None,
                    Some(s) => Some(s@),
                },
                delim@,
            ) is None,
        },
{
    match body {
        None => Ok(None),
        Some(s) => match compile(s.as_str(), delim) {
            Ok(t) => Ok(Some(t)),
            Err(e) => Err(e),
        },
    }
}

impl SubstitutionPlan {
    /// Builds the plan of a run from the raw header flags, the optional body and
    /// the delimiter; fails when any kept header key or value, or the body,
    /// holds an odd number of delimiters.
    pub fn new(raw_headers: &Vec<String>, body: &Option<String>, delim: &str) -> (r: Result<
        SubstitutionPlan,
        MalformedTemplate,
    >)
        requires
            delim@.len() > 0,
        ensures
            r is Ok <==> compiled_headers(raw_headers@.map_values(|h: String| h@), delim@) is Some
                && compiled_body(
                match body {
                    None => None,
                    Some(s) => Some(s@),
                },
                delim@,
            ) is Some,
            r matches Ok(p) ==> Some(p@.headers) == compiled_headers(
                raw_headers@.map_values(|h: String| h@),
                delim@,
            ) && Some(p@.body) == compiled_body(
                match body {
                    None => None,
                    Some(s) => Some(s@),
                },
                delim@,
            ),
    {
        let headers = match get_headers(raw_headers, delim) {
            Ok(hs) => hs,
            Err(e) => return Err(e),
        };
        let body = match get_body(body, delim) {
            Ok(b) => b,
            Err(e) => return Err(e),
        };
        Ok(SubstitutionPlan { headers, body })
    }

    /// Number of headers the plan sends.
    pub fn header_count(&self) -> (r: usize)
        ensures
            r == self@.headers.len(),
    {
        self.headers.len()
    }

    /// Whether the plan sends a body.
    pub fn has_body(&self) -> (r: bool)
        ensures
            r == self@.body is Some,
    {
        self.body.is_some()
    }

    /// The request this plan yields for `word`.
    pub fn materialize(&self, word: &str) -> (r: Request)
        ensures
            r@ == request_for(self@, word@),
    {
        let mut headers: Vec<(String, String)> = Vec::new();
        let mut i: usize = 0;
        while i < self.headers.len()
            invariant
                i <= self.headers.len(),
                headers@.len() == i,
                forall|j: int|
                    0 <= j < i ==> (#[trigger] headers@[j]).0@ == materialized(
                        self.headers@[j].0@,
                        word@,
                    ) && headers@[j].1@ == materialized(self.headers@[j].1@, word@),
            decreases self.headers.len() - i,
        {
            let key = self.headers[i].0.materialize(word);
            let value = self.headers[i].1.materialize(word);
            headers.push((key, value));
            i = i + 1;
        }
        let body = match &self.body {
            None => None,
            Some(t) => Some(t.materialize(word)),
        };
        let r = Request { word: word.to_owned(), headers, body };
        assert(r@.headers =~= request_for(self@, word@).headers);
        r
    }
}

} // verus!
