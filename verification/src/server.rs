//! The preview server's state and its responder.
//!
//! A `Server` holds the file index and the document store, both built once
//! at construction and read-only afterwards. The responder takes one request
//! line, matches the requested prefix component-wise against the index, and
//! returns either the one matching document wrapped in document-page markup
//! or a listing page with one link per match. Every response carries the
//! one status line this design ever emits.

use vstd::prelude::*;
use vstd::string::*;
use crate::paths::{components_of, prefix_matches, split_components, split_tokens, tokens_of};
use crate::render::{
    document_page,
    html_of,
    link_of,
    listing_page,
    render_markdown,
    FilesTemplate,
    MarkdownTemplate,
};
use crate::status::{
    first_line_of,
    is_line_break,
    lemma_line_end_value,
    lemma_status_round_trip,
    status_code_of,
    status_line,
};

verus! {

/// One source file handed to the server: its path relative to the root
/// directory and its full text.
pub struct SourceFile {
    pub path: String,
    pub content: String,
}

/// The requested prefix of a request line: its second whitespace-separated
/// token, with a single leading path separator stripped.
pub open spec fn request_prefix(line: Seq<char>) -> Seq<char> {
    let t = tokens_of(line)[1];
    if t.len() > 0 && t[0] == '/' {
        t.drop_first()
    } else {
        t
    }
}

/// The indices of the first `n` index entries that the prefix matches,
/// in index order.
pub open spec fn matched_upto(files: Seq<Seq<char>>, prefix: Seq<char>, n: int) -> Seq<int>
    decreases n,
{
    if n <= 0 {
        Seq::empty()
    } else if prefix_matches(prefix, files[n - 1]) {
        matched_upto(files, prefix, n - 1).push(n - 1)
    } else {
        matched_upto(files, prefix, n - 1)
    }
}

/// The indices of all index entries that the prefix matches, in index order.
pub open spec fn matched(files: Seq<Seq<char>>, prefix: Seq<char>) -> Seq<int> {
    matched_upto(files, prefix, files.len() as int)
}

/// The body fragment of a listing page: one link per index in `idxs`,
/// in order.
pub open spec fn links_of(files: Seq<Seq<char>>, idxs: Seq<int>) -> Seq<char>
    decreases idxs.len(),
{
    if idxs.len() == 0 {
        Seq::empty()
    } else {
        links_of(files, idxs.drop_last()) + link_of(files[idxs.last()])
    }
}

/// The full response to a request line with at least two tokens: the status
/// line, a blank line, then either the one matched document wrapped in
/// document-page markup or a listing page with one link per match.
pub open spec fn response_for(
    files: Seq<Seq<char>>,
    docs: Seq<Seq<char>>,
    line: Seq<char>,
) -> Seq<char> {
    let p = request_prefix(line);
    let m = matched(files, p);
    if m.len() == 1 {
        status_line() + "\r\n\r\n"@ + document_page(docs[m[0]])
    } else {
        status_line() + "\r\n\r\n"@ + listing_page(links_of(files, m))
    }
}

/// Every response the responder can emit begins with the fixed status
/// line, and re-parsing that first line yields the success code: there is
/// no other status in this design.
pub proof fn lemma_response_status(files: Seq<Seq<char>>, docs: Seq<Seq<char>>, line: Seq<char>)
    ensures
        first_line_of(response_for(files, docs, line)) == status_line(),
        status_code_of(first_line_of(response_for(files, docs, line))) == Some(200u16),
{
    let r = response_for(files, docs, line);
    reveal_strlit("HTTP/1.1 200 OK");
    reveal_strlit("\r\n\r\n");
    assert(status_line().len() == 15);
    assert(r.len() >= 19);
    assert forall|k: int| 0 <= k < 15 implies !is_line_break(#[trigger] r[k]) by {
        assert(r[k] == status_line()[k]);
        assert(!is_line_break(status_line()[0]));
        assert(!is_line_break(status_line()[1]));
        assert(!is_line_break(status_line()[2]));
        assert(!is_line_break(status_line()[3]));
        assert(!is_line_break(status_line()[4]));
        assert(!is_line_break(status_line()[5]));
        assert(!is_line_break(status_line()[6]));
        assert(!is_line_break(status_line()[7]));
        assert(!is_line_break(status_line()[8]));
        assert(!is_line_break(status_line()[9]));
        assert(!is_line_break(status_line()[10]));
        assert(!is_line_break(status_line()[11]));
        assert(!is_line_break(status_line()[12]));
        assert(!is_line_break(status_line()[13]));
        assert(!is_line_break(status_line()[14]));
    }
    assert(r[15] == '\r');
    assert(is_line_break(r[15]));
    lemma_line_end_value(r, 0, 15);
    assert(r.take(15) =~= status_line());
    lemma_status_round_trip();
}

/// Every matched index names an entry among the first `n` that the prefix
/// matches, the matches come in index order, and no matching entry is
/// missed.
pub proof fn lemma_matched_characterized(files: Seq<Seq<char>>, prefix: Seq<char>, n: int)
    requires
        0 <= n <= files.len(),
    ensures
        ({
            let m = matched_upto(files, prefix, n);
            &&& forall|k: int|
                0 <= k < m.len() ==> 0 <= #[trigger] m[k] < n && prefix_matches(
                    prefix,
                    files[m[k]],
                )
            &&& forall|k1: int, k2: int| 0 <= k1 < k2 < m.len() ==> m[k1] < m[k2]
            &&& forall|j: int|
                0 <= j < n && prefix_matches(prefix, files[j]) ==> #[trigger] m.contains(j)
        }),
    decreases n,
{
    if n > 0 {
        lemma_matched_characterized(files, prefix, n - 1);
        let m0 = matched_upto(files, prefix, n - 1);
        let m = matched_upto(files, prefix, n);
        if prefix_matches(prefix, files[n - 1]) {
            assert(m == m0.push(n - 1));
            assert forall|j: int|
                0 <= j < n && prefix_matches(prefix, files[j]) implies #[trigger] m.contains(
                j,
            ) by {
                if j == n - 1 {
                    assert(m[m.len() - 1] == n - 1);
                } else {
                    assert(m0.contains(j));
                    let k = choose|k: int| 0 <= k < m0.len() && m0[k] == j;
                    assert(m[k] == j);
                }
            }
        } else {
            assert(m == m0);
        }
    }
}

/// When the prefix matches every index entry, the matched indices are all
/// of them, in order.
pub proof fn lemma_matched_all_upto(files: Seq<Seq<char>>, prefix: Seq<char>, n: int)
    requires
        0 <= n <= files.len(),
        forall|j: int| 0 <= j < files.len() ==> prefix_matches(prefix, #[trigger] files[j]),
    ensures
        matched_upto(files, prefix, n) =~= Seq::new(n as nat, |i: int| i),
    decreases n,
{
    if n > 0 {
        lemma_matched_all_upto(files, prefix, n - 1);
    }
}

/// Requesting the root, an empty prefix, answers with a listing of every
/// indexed file, as long as more than one file, or none, is indexed.
pub proof fn lemma_root_lists_all(files: Seq<Seq<char>>, docs: Seq<Seq<char>>, line: Seq<char>)
    requires
        tokens_of(line).len() >= 2,
        request_prefix(line).len() == 0,
        files.len() != 1,
    ensures
        matched(files, request_prefix(line)) =~= Seq::new(files.len(), |i: int| i),
        response_for(files, docs, line) == status_line() + "\r\n\r\n"@ + listing_page(
            links_of(files, matched(files, request_prefix(line))),
        ),
{
    let p = request_prefix(line);
    assert forall|j: int| 0 <= j < files.len() implies prefix_matches(
        p,
        #[trigger] files[j],
    ) by {
        crate::paths::lemma_empty_prefix_matches(p, files[j]);
    }
    lemma_matched_all_upto(files, p, files.len() as int);
    assert(matched(files, p).len() == files.len());
}

/// A prefix that matches exactly one indexed file is answered with that
/// file's rendered HTML: precisely the renderer's output for the file's
/// source text, wrapped in the document-page markup.
pub proof fn lemma_unique_match_serves_rendering(
    files: Seq<Seq<char>>,
    docs: Seq<Seq<char>>,
    sources: Seq<Seq<char>>,
    line: Seq<char>,
)
    requires
        files.len() == docs.len(),
        docs.len() == sources.len(),
        forall|i: int| 0 <= i < docs.len() ==> docs[i] == html_of(#[trigger] sources[i]),
        tokens_of(line).len() >= 2,
        matched(files, request_prefix(line)).len() == 1,
    ensures
        ({
            let m = matched(files, request_prefix(line));
            &&& 0 <= m[0] < files.len()
            &&& prefix_matches(request_prefix(line), files[m[0]])
            &&& response_for(files, docs, line) == status_line() + "\r\n\r\n"@ + document_page(
                html_of(sources[m[0]]),
            )
        }),
{
    lemma_matched_characterized(files, request_prefix(line), files.len() as int);
}

/// A prefix with zero or several matches is answered with a listing page
/// that links each matched path once, in index order, and misses none.
pub proof fn lemma_listing_lists_matches(
    files: Seq<Seq<char>>,
    docs: Seq<Seq<char>>,
    line: Seq<char>,
)
    requires
        tokens_of(line).len() >= 2,
        matched(files, request_prefix(line)).len() != 1,
    ensures
        ({
            let m = matched(files, request_prefix(line));
            &&& response_for(files, docs, line) == status_line() + "\r\n\r\n"@ + listing_page(
                links_of(files, m),
            )
            &&& forall|k: int|
                0 <= k < m.len() ==> 0 <= #[trigger] m[k] < files.len() && prefix_matches(
                    request_prefix(line),
                    files[m[k]],
                )
            &&& forall|k1: int, k2: int| 0 <= k1 < k2 < m.len() ==> m[k1] < m[k2]
            &&& forall|j: int|
                0 <= j < files.len() && prefix_matches(request_prefix(line), files[j])
                    ==> #[trigger] m.contains(j)
        }),
{
    lemma_matched_characterized(files, request_prefix(line), files.len() as int);
}

/// The preview server: a fixed port, the file index, and the store of
/// pre-rendered documents, one per index entry.
pub struct Server {
    port: u16,
    files: Vec<String>,
    markdown: Vec<String>,
}

impl Server {
    /// The configured port.
    pub closed spec fn spec_port(self) -> u16 {
        self.port
    }

    /// The file index: the relative path of every indexed file, in index
    /// order.
    pub closed spec fn index(self) -> Seq<Seq<char>> {
        self.files.deep_view()
    }

    /// The document store: the rendered HTML of every indexed file, in
    /// index order.
    pub closed spec fn docs(self) -> Seq<Seq<char>> {
        self.markdown.deep_view()
    }

    /// The store is 1:1 with the index.
    pub open spec fn wf(self) -> bool {
        self.docs().len() == self.index().len()
    }

    /// The document store read as a map from an indexed path to its
    /// rendered HTML.
    pub open spec fn store_map(self) -> Map<Seq<char>, Seq<char>> {
        Map::new(
            |p: Seq<char>| self.index().contains(p),
            |p: Seq<char>| self.docs()[self.index().index_of(p)],
        )
    }

    /// Build a server over the given source files: the index keeps their
    /// paths in order, and the store holds each file's content rendered
    /// to HTML.
    pub fn new(port: u16, sources: Vec<SourceFile>) -> (s: Server)
        ensures
            s.wf(),
            s.spec_port() == port,
            s.index().len() == sources@.len(),
            forall|i: int|
                0 <= i < sources@.len() ==> s.index()[i] == sources@[i].path@,
            forall|i: int|
                0 <= i < sources@.len() ==> s.docs()[i] == html_of(sources@[i].content@),
    {
        let mut files: Vec<String> = Vec::new();
        let mut markdown: Vec<String> = Vec::new();
        let mut i: usize = 0;
        while i < sources.len()
            invariant
                i <= sources@.len(),
                files.deep_view().len() == i,
                markdown.deep_view().len() == i,
                forall|k: int| 0 <= k < i ==> files.deep_view()[k] == sources@[k].path@,
                forall|k: int|
                    0 <= k < i ==> markdown.deep_view()[k] == html_of(sources@[k].content@),
            decreases sources@.len() - i,
        {
            let ghost fdv = files.deep_view();
            let ghost mdv = markdown.deep_view();
            let src = &sources[i];
            files.push(src.path.clone());
            markdown.push(render_markdown(src.content.as_str()));
            proof {
                assert(files.deep_view() =~= fdv.push(sources@[i as int].path@));
                assert(markdown.deep_view() =~= mdv.push(html_of(sources@[i as int].content@)));
            }
            i = i + 1;
        }
        Server { port, files, markdown }
    }

    /// The store holds exactly one rendering per index entry: its key set
    /// is the set of indexed paths, and each indexed path is keyed to the
    /// rendering stored at its index position.
    pub proof fn lemma_store_covers_index(self)
        requires
            self.wf(),
            self.index().no_duplicates(),
        ensures
            self.docs().len() == self.index().len(),
            forall|p: Seq<char>|
                #[trigger] self.store_map().dom().contains(p) <==> self.index().contains(p),
            forall|i: int|
                0 <= i < self.index().len() ==> self.store_map()[#[trigger] self.index()[i]]
                    == self.docs()[i],
    {
        assert forall|i: int|
            0 <= i < self.index().len() implies self.store_map()[#[trigger] self.index()[i]]
            == self.docs()[i] by {
            assert(self.index().contains(self.index()[i]));
            let k = self.index().index_of(self.index()[i]);
            assert(0 <= k < self.index().len() && self.index()[k] == self.index()[i]);
            assert(k == i);
        }
    }

    /// The configured port.
    pub fn port(&self) -> (p: u16)
        ensures
            p == self.spec_port(),
    {
        self.port
    }

    /// Answer one request line: `None` when the line has fewer than two
    /// whitespace-separated tokens (a fatal per-connection error), else the
    /// full response for the requested prefix.
    pub fn handle_request(&self, request_line: &str) -> (r: Option<String>)
        requires
            self.wf(),
        ensures
            match r {
                None => tokens_of(request_line@).len() < 2,
                Some(resp) => tokens_of(request_line@).len() >= 2 && resp@ == response_for(
                    self.index(),
                    self.docs(),
                    request_line@,
                ),
            },
    {
        let toks = split_tokens(request_line);
        if toks.len() < 2 {
            return None;
        }
        let raw: &String = &toks[1];
        let raw_len = raw.as_str().unicode_len();
        let prefix: String = if raw_len > 0 && raw.as_str().get_char(0) == '/' {
            raw.as_str().substring_char(1, raw_len).to_owned()
        } else {
            raw.clone()
        };
        proof {
            assert(raw@ == tokens_of(request_line@)[1]);
            if raw@.len() > 0 && raw@[0] == '/' {
                assert(raw@.subrange(1, raw@.len() as int) =~= raw@.drop_first());
            }
            assert(prefix@ == request_prefix(request_line@));
        }
        let matches = self.matching_indices(&prefix);
        let ghost m = matched(self.index(), prefix@);

        let body: String;
        if matches.len() == 1 {
            let idx = matches[0];
            let template = MarkdownTemplate { content: self.markdown[idx].clone() };
            body = template.render();
        } else {
            let links = self.listing_links(&matches, Ghost(prefix@));
            let template = FilesTemplate { content: links };
            body = template.render();
        }
        let mut resp = String::from_str("HTTP/1.1 200 OK");
        resp.append("\r\n\r\n");
        resp.append(body.as_str());
        proof {
            assert(resp@ =~= response_for(self.index(), self.docs(), request_line@));
        }
        Some(resp)
    }

    /// The indices of all index entries that the prefix matches, in index
    /// order.
    fn matching_indices(&self, prefix: &String) -> (r: Vec<usize>)
        ensures
            r@.map_values(|u: usize| u as int) == matched(self.index(), prefix@),
            forall|k: int| 0 <= k < r@.len() ==> r@[k] < self.index().len(),
    {
        let pc = split_components(prefix.as_str());
        let mut r: Vec<usize> = Vec::new();
        let mut i: usize = 0;
        while i < self.files.len()
            invariant
                i <= self.files@.len(),
                pc.deep_view() == components_of(prefix@),
                self.index().len() == self.files@.len(),
                r@.map_values(|u: usize| u as int) == matched_upto(self.index(), prefix@, i as int),
                forall|k: int| 0 <= k < r@.len() ==> r@[k] < i,
            decreases self.files@.len() - i,
        {
            let ghost rm = r@.map_values(|u: usize| u as int);
            let fc = split_components(self.files[i].as_str());
            proof {
                assert(self.files@[i as int]@ == self.index()[i as int]);
            }
            if crate::paths::path_prefix_matches_split(&pc, &fc) {
                r.push(i);
                proof {
                    assert(r@.map_values(|u: usize| u as int) =~= rm.push(i as int));
                }
            }
            i = i + 1;
        }
        r
    }

    /// The listing body for the matched indices: one link per match, in
    /// order.
    fn listing_links(&self, matches: &Vec<usize>, prefix: Ghost<Seq<char>>) -> (r: String)
        requires
            matches@.map_values(|u: usize| u as int) == matched(self.index(), prefix@),
            forall|k: int| 0 <= k < matches@.len() ==> matches@[k] < self.index().len(),
        ensures
            r@ == links_of(self.index(), matched(self.index(), prefix@)),
    {
        let ghost m = matched(self.index(), prefix@);
        let mut out = String::new();
        let mut k: usize = 0;
        while k < matches.len()
            invariant
                k <= matches@.len(),
                matches@.map_values(|u: usize| u as int) == m,
                forall|j: int| 0 <= j < matches@.len() ==> matches@[j] < self.index().len(),
                out@ == links_of(self.index(), m.take(k as int)),
            decreases matches@.len() - k,
        {
            let idx = matches[k];
            crate::render::push_link(&mut out, self.files[idx].as_str());
            proof {
                assert(m.take(k as int + 1).drop_last() =~= m.take(k as int));
                assert(m.take(k as int + 1).last() == idx as int);
                assert(self.files@[idx as int]@ == self.index()[idx as int]);
            }
            k = k + 1;
        }
        proof {
            assert(m.take(m.len() as int) =~= m);
        }
        out
    }
}

} // verus!
