//! Input paths as the library sees them, and the order in which the
//! text pipeline walks them.

use vstd::prelude::*;
use crate::strings::{chars_of, string_of};

verus! {

/// A path as the user wrote it, together with the extension of its last
/// component. The library reads nothing else of a path.
#[derive(Debug, Clone, PartialEq, Eq)]
pub struct InputPath {
    /// The path, as text.
    pub text: String,
    /// The extension without its dot, where the path has one.
    pub extension: Option<String>,
}

/// What an `InputPath` stands for in contracts.
pub struct PathView {
    pub text: Seq<char>,
    pub extension: Option<Seq<char>>,
}

impl View for InputPath {
    type V = PathView;

    open spec fn view(&self) -> PathView {
        PathView {
            text: self.text@,
            extension: match self.extension {
                Some(e) => Some(e@),
                None => None,
            },
        }
    }
}

impl InputPath {
    /// A path from its text and its extension.
    pub fn new(text: &str, extension: Option<&str>) -> (p: InputPath)
        ensures
            p@.text == text@,
            p@.extension == match extension {
                Some(e) => Some(e@),
                None => None,
            },
    {
        InputPath {
            text: text.to_owned(),
            extension: match extension {
                Some(e) => Some(e.to_owned()),
                None => None,
            },
        }
    }

    /// A copy of this path.
    pub fn duplicate(&self) -> (p: InputPath)
        ensures
            p@ == self@,
    {
        InputPath {
            text: self.text.clone(),
            extension: match &self.extension {
                Some(e) => Some(e.clone()),
                None => None,
            },
        }
    }
}

/// The views of a sequence of paths.
pub open spec fn path_views(paths: Seq<InputPath>) -> Seq<PathView> {
    paths.map_values(|p: InputPath| p@)
}

/// Lexicographic order by code point, from index `i` on: `a[i..]` is a
/// prefix of `b[i..]`, or is smaller where the two first differ.
pub open spec fn text_le_from(a: Seq<char>, b: Seq<char>, i: int) -> bool
    decreases a.len() - i,
{
    if i >= a.len() {
        true
    } else if i >= b.len() {
        false
    } else if a[i] != b[i] {
        a[i] < b[i]
    } else {
        text_le_from(a, b, i + 1)
    }
}

/// `a` comes before `b` in lexicographic order, or equals it.
pub open spec fn text_le(a: Seq<char>, b: Seq<char>) -> bool {
    text_le_from(a, b, 0)
}

/// `sorted` with `p` put behind the last path that does not come after
/// it.
pub open spec fn inserted(sorted: Seq<PathView>, p: PathView) -> Seq<PathView>
    decreases sorted.len(),
{
    if sorted.len() == 0 || text_le(sorted.last().text, p.text) {
        sorted.push(p)
    } else {
        inserted(sorted.drop_last(), p).push(sorted.last())
    }
}

/// The paths in lexicographic order of their text; paths of equal text
/// keep the order they came in.
pub open spec fn sorted_by_text(paths: Seq<PathView>) -> Seq<PathView>
    decreases paths.len(),
{
    if paths.len() == 0 {
        paths
    } else {
        inserted(sorted_by_text(paths.drop_last()), paths.last())
    }
}

/// No path comes before one that stands ahead of it.
pub open spec fn in_text_order(paths: Seq<PathView>) -> bool {
    forall|i: int, j: int|
        0 <= i <= j < paths.len() ==> text_le(#[trigger] paths[i].text, #[trigger] paths[j].text)
}

/// Of any two texts, one comes before the other or equals it.
pub proof fn lemma_text_le_total(a: Seq<char>, b: Seq<char>, i: int)
    requires
        0 <= i,
    ensures
        text_le_from(a, b, i) || text_le_from(b, a, i),
    decreases a.len() - i,
{
    if i < a.len() && i < b.len() && a[i] == b[i] {
        lemma_text_le_total(a, b, i + 1);
    }
}

/// The order is transitive.
pub proof fn lemma_text_le_transitive(a: Seq<char>, b: Seq<char>, c: Seq<char>, i: int)
    requires
        0 <= i,
        text_le_from(a, b, i),
        text_le_from(b, c, i),
    ensures
        text_le_from(a, c, i),
    decreases a.len() - i,
{
    if i < a.len() && i < b.len() && i < c.len() && a[i] == b[i] && b[i] == c[i] {
        lemma_text_le_transitive(a, b, c, i + 1);
    }
}

/// Two texts that each come before the other agree from `i` on.
pub proof fn lemma_text_le_antisymmetric(a: Seq<char>, b: Seq<char>, i: int)
    requires
        0 <= i <= a.len(),
        i <= b.len(),
        text_le_from(a, b, i),
        text_le_from(b, a, i),
    ensures
        a.skip(i) == b.skip(i),
    decreases a.len() - i,
{
    if i < a.len() {
        lemma_text_le_antisymmetric(a, b, i + 1);
        assert(a.skip(i) == seq![a[i]] + a.skip(i + 1));
        assert(b.skip(i) == seq![b[i]] + b.skip(i + 1));
    } else {
        assert(a.skip(i) == b.skip(i));
    }
}

/// Inserting keeps every path and adds the new one.
pub proof fn lemma_inserted_is_permutation(sorted: Seq<PathView>, p: PathView)
    ensures
        inserted(sorted, p).to_multiset() == sorted.to_multiset().insert(p),
        inserted(sorted, p).len() == sorted.len() + 1,
    decreases sorted.len(),
{
    broadcast use vstd::seq_lib::group_to_multiset_ensures;

    if sorted.len() == 0 || text_le(sorted.last().text, p.text) {
    } else {
        let rest = sorted.drop_last();
        lemma_inserted_is_permutation(rest, p);
        assert(sorted == rest.push(sorted.last()));
        assert(inserted(rest, p).push(sorted.last()).to_multiset() == rest.to_multiset().insert(
            p,
        ).insert(sorted.last()));
        assert(rest.to_multiset().insert(p).insert(sorted.last()) == rest.to_multiset().insert(
            sorted.last(),
        ).insert(p));
    }
}

/// Inserting into an ordered sequence leaves it ordered.
pub proof fn lemma_inserted_in_order(sorted: Seq<PathView>, p: PathView)
    requires
        in_text_order(sorted),
    ensures
        in_text_order(inserted(sorted, p)),
        forall|k: int|
            0 <= k < inserted(sorted, p).len() ==> #[trigger] inserted(sorted, p)[k] == p
                || sorted.contains(inserted(sorted, p)[k]),
    decreases sorted.len(),
{
    let out = inserted(sorted, p);
    lemma_inserted_is_permutation(sorted, p);
    if sorted.len() == 0 {
        assert(text_le(p.text, p.text)) by {
            lemma_text_le_total(p.text, p.text, 0);
        }
    } else if text_le(sorted.last().text, p.text) {
        assert forall|i: int, j: int| 0 <= i <= j < out.len() implies text_le(
            #[trigger] out[i].text,
            #[trigger] out[j].text,
        ) by {
            if j < sorted.len() {
            } else if i < sorted.len() {
                assert(text_le(sorted[i].text, sorted.last().text));
                lemma_text_le_transitive(sorted[i].text, sorted.last().text, p.text, 0);
            } else {
                lemma_text_le_total(p.text, p.text, 0);
            }
        }
        assert forall|k: int| 0 <= k < out.len() implies #[trigger] out[k] == p || sorted.contains(
            out[k],
        ) by {
            if k < sorted.len() {
                assert(sorted[k] == out[k]);
            }
        }
    } else {
        let rest = sorted.drop_last();
        let last = sorted.last();
        assert(in_text_order(rest)) by {
            assert forall|i: int, j: int| 0 <= i <= j < rest.len() implies text_le(
                #[trigger] rest[i].text,
                #[trigger] rest[j].text,
            ) by {
                assert(rest[i] == sorted[i] && rest[j] == sorted[j]);
            }
        }
        lemma_inserted_in_order(rest, p);
        lemma_inserted_is_permutation(rest, p);
        let inner = inserted(rest, p);
        assert(text_le(p.text, last.text)) by {
            lemma_text_le_total(p.text, last.text, 0);
        }
        assert forall|k: int| 0 <= k < inner.len() implies text_le(
            #[trigger] inner[k].text,
            last.text,
        ) by {
            if inner[k] != p {
                assert(rest.contains(inner[k]));
                let m = choose|m: int| 0 <= m < rest.len() && rest[m] == inner[k];
                assert(text_le(sorted[m].text, sorted[sorted.len() - 1].text));
            }
        }
        assert forall|i: int, j: int| 0 <= i <= j < out.len() implies text_le(
            #[trigger] out[i].text,
            #[trigger] out[j].text,
        ) by {
            if j < inner.len() {
                assert(out[i] == inner[i] && out[j] == inner[j]);
            } else if i < inner.len() {
                assert(out[i] == inner[i]);
            } else {
                lemma_text_le_total(last.text, last.text, 0);
            }
        }
        assert forall|k: int| 0 <= k < out.len() implies #[trigger] out[k] == p || sorted.contains(
            out[k],
        ) by {
            if k < inner.len() {
                assert(out[k] == inner[k]);
                if inner[k] != p {
                    let m = choose|m: int| 0 <= m < rest.len() && rest[m] == inner[k];
                    assert(sorted[m] == out[k]);
                }
            } else {
                assert(sorted[sorted.len() - 1] == out[k]);
            }
        }
    }
}

/// Sorting yields the same paths, each as often as it came, in
/// lexicographic order.
pub proof fn lemma_sorted_by_text(paths: Seq<PathView>)
    ensures
        in_text_order(sorted_by_text(paths)),
        sorted_by_text(paths).to_multiset() == paths.to_multiset(),
        sorted_by_text(paths).len() == paths.len(),
    decreases paths.len(),
{
    broadcast use vstd::seq_lib::group_to_multiset_ensures;

    if paths.len() == 0 {
    } else {
        let rest = paths.drop_last();
        lemma_sorted_by_text(rest);
        lemma_inserted_in_order(sorted_by_text(rest), paths.last());
        lemma_inserted_is_permutation(sorted_by_text(rest), paths.last());
        assert(paths == rest.push(paths.last()));
    }
}

/// Among these paths, the text of a path tells which path it is.
pub open spec fn told_apart_by_text(paths: Seq<PathView>) -> bool {
    forall|i: int, j: int|
        0 <= i < paths.len() && 0 <= j < paths.len() && #[trigger] paths[i].text
            == #[trigger] paths[j].text ==> paths[i] == paths[j]
}

/// Two ordered sequences of the same paths are one sequence, where the
/// text of a path tells which path it is.
pub proof fn lemma_order_is_unique(x: Seq<PathView>, y: Seq<PathView>)
    requires
        in_text_order(x),
        in_text_order(y),
        x.to_multiset() == y.to_multiset(),
        told_apart_by_text(x),
    ensures
        x == y,
    decreases x.len(),
{
    vstd::seq_lib::to_multiset_len(x);
    vstd::seq_lib::to_multiset_len(y);
    if x.len() > 0 {
        vstd::seq_lib::to_multiset_contains(x, y[0]);
        vstd::seq_lib::to_multiset_contains(y, y[0]);
        vstd::seq_lib::to_multiset_contains(x, x[0]);
        vstd::seq_lib::to_multiset_contains(y, x[0]);
        assert(y.contains(y[0]));
        assert(x.contains(x[0]));
        let k = choose|k: int| 0 <= k < x.len() && x[k] == y[0];
        let m = choose|m: int| 0 <= m < y.len() && y[m] == x[0];
        assert(text_le(x[0].text, x[k].text));
        assert(text_le(y[0].text, y[m].text));
        lemma_text_le_antisymmetric(x[0].text, y[0].text, 0);
        assert(x[0].text.skip(0) == x[0].text);
        assert(y[0].text.skip(0) == y[0].text);
        assert(x[0] == x[k]);
        let x_rest = x.drop_first();
        let y_rest = y.drop_first();
        assert(x_rest == x.remove(0));
        assert(y_rest == y.remove(0));
        vstd::seq_lib::to_multiset_remove(x, 0);
        vstd::seq_lib::to_multiset_remove(y, 0);
        assert(in_text_order(x_rest)) by {
            assert forall|i: int, j: int| 0 <= i <= j < x_rest.len() implies text_le(
                #[trigger] x_rest[i].text,
                #[trigger] x_rest[j].text,
            ) by {
                assert(x_rest[i] == x[i + 1] && x_rest[j] == x[j + 1]);
            }
        }
        assert(in_text_order(y_rest)) by {
            assert forall|i: int, j: int| 0 <= i <= j < y_rest.len() implies text_le(
                #[trigger] y_rest[i].text,
                #[trigger] y_rest[j].text,
            ) by {
                assert(y_rest[i] == y[i + 1] && y_rest[j] == y[j + 1]);
            }
        }
        assert(told_apart_by_text(x_rest)) by {
            assert forall|i: int, j: int|
                0 <= i < x_rest.len() && 0 <= j < x_rest.len() && #[trigger] x_rest[i].text
                    == #[trigger] x_rest[j].text implies x_rest[i] == x_rest[j] by {
                assert(x_rest[i] == x[i + 1] && x_rest[j] == x[j + 1]);
            }
        }
        lemma_order_is_unique(x_rest, y_rest);
        assert(x == seq![x[0]] + x_rest);
        assert(y == seq![y[0]] + y_rest);
    }
}

/// The order in which the paths come in makes no difference to the order
/// in which they go out, where the text of a path tells which path it is.
pub proof fn lemma_sorting_ignores_input_order(a: Seq<PathView>, b: Seq<PathView>)
    requires
        a.to_multiset() == b.to_multiset(),
        told_apart_by_text(a),
    ensures
        sorted_by_text(a) == sorted_by_text(b),
{
    lemma_sorted_by_text(a);
    lemma_sorted_by_text(b);
    let x = sorted_by_text(a);
    assert(told_apart_by_text(x)) by {
        assert forall|i: int, j: int|
            0 <= i < x.len() && 0 <= j < x.len() && #[trigger] x[i].text == #[trigger] x[j].text
            implies x[i] == x[j] by {
            vstd::seq_lib::to_multiset_contains(x, x[i]);
            vstd::seq_lib::to_multiset_contains(a, x[i]);
            vstd::seq_lib::to_multiset_contains(x, x[j]);
            vstd::seq_lib::to_multiset_contains(a, x[j]);
            assert(x.contains(x[i]) && x.contains(x[j]));
            let p = choose|p: int| 0 <= p < a.len() && a[p] == x[i];
            let q = choose|q: int| 0 <= q < a.len() && a[q] == x[j];
            assert(a[p].text == a[q].text);
        }
    }
    lemma_order_is_unique(x, sorted_by_text(b));
}

/// Where `p` goes behind `sorted[j - 1]` and ahead of all that follow,
/// inserting it is putting it at index `j`.
proof fn lemma_inserted_at(sorted: Seq<PathView>, p: PathView, j: int)
    requires
        0 <= j <= sorted.len(),
        j > 0 ==> text_le(sorted[j - 1].text, p.text),
        forall|k: int| j <= k < sorted.len() ==> !text_le(#[trigger] sorted[k].text, p.text),
    ensures
        inserted(sorted, p) == sorted.insert(j, p),
    decreases sorted.len() - j,
{
    if j == sorted.len() {
        assert(sorted.push(p) == sorted.insert(j, p));
    } else {
        let rest = sorted.drop_last();
        assert(!text_le(sorted[sorted.len() - 1].text, p.text));
        assert forall|k: int| j <= k < rest.len() implies !text_le(
            #[trigger] rest[k].text,
            p.text,
        ) by {
            assert(rest[k] == sorted[k]);
        }
        if j > 0 {
            assert(rest[j - 1] == sorted[j - 1]);
        }
        lemma_inserted_at(rest, p, j);
        assert(rest.insert(j, p).push(sorted.last()) == sorted.insert(j, p));
    }
}

/// Whether `a` comes before `b` in lexicographic order, or equals it.
pub fn text_precedes(a: &str, b: &str) -> (r: bool)
    ensures
        r == text_le(a@, b@),
{
    let x = chars_of(a);
    let y = chars_of(b);
    let mut i: usize = 0;
    loop
        invariant
            i <= x.len(),
            i <= y.len(),
            x@ == a@,
            y@ == b@,
            text_le(x@, y@) == text_le_from(x@, y@, i as int),
        decreases x.len() - i,
    {
        if i >= x.len() {
            return true;
        }
        if i >= y.len() {
            return false;
        }
        if x[i] != y[i] {
            return x[i] < y[i];
        }
        i += 1;
    }
}

/// The paths in lexicographic order of their text.
pub fn sort_paths(paths: &Vec<InputPath>) -> (out: Vec<InputPath>)
    ensures
        path_views(out@) == sorted_by_text(path_views(paths@)),
{
    let mut out: Vec<InputPath> = Vec::new();
    let mut i: usize = 0;
    assert(path_views(paths@).take(0) == Seq::<PathView>::empty());
    assert(path_views(out@) == Seq::<PathView>::empty());
    while i < paths.len()
        invariant
            i <= paths.len(),
            path_views(out@) == sorted_by_text(path_views(paths@).take(i as int)),
        decreases paths.len() - i,
    {
        let item = paths[i].duplicate();
        let mut j: usize = out.len();
        while j > 0 && !text_precedes(out[j - 1].text.as_str(), item.text.as_str())
            invariant
                j <= out.len(),
                forall|k: int|
                    j <= k < out.len() ==> !text_le(
                        #[trigger] path_views(out@)[k].text,
                        item@.text,
                    ),
            decreases j,
        {
            j -= 1;
        }
        proof {
            let before = path_views(out@);
            let all = path_views(paths@);
            lemma_inserted_at(before, item@, j as int);
            assert(all.take(i + 1).drop_last() == all.take(i as int));
            assert(all.take(i + 1).last() == item@);
            assert(path_views(out@.insert(j as int, item)) == before.insert(j as int, item@));
        }
        out.insert(j, item);
        i += 1;
    }
    assert(path_views(paths@).take(i as int) == path_views(paths@));
    out
}

/// White space as Unicode defines it.
pub open spec fn is_space(c: char) -> bool {
    let n = c as u32;
    (0x09 <= n && n <= 0x0D) || n == 0x20 || n == 0x85 || n == 0xA0 || n == 0x1680 || (0x2000 <= n
        && n <= 0x200A) || n == 0x2028 || n == 0x2029 || n == 0x202F || n == 0x205F || n
        == 0x3000
}

/// The index of the first character at or after `i` that is no white
/// space; the length of `s` where there is none.
pub open spec fn first_kept(s: Seq<char>, i: int) -> int
    decreases s.len() - i,
{
    if 0 <= i < s.len() && is_space(s[i]) {
        first_kept(s, i + 1)
    } else {
        i
    }
}

/// The index behind the last character before `j` that is no white
/// space; 0 where there is none.
pub open spec fn last_kept_end(s: Seq<char>, j: int) -> int
    decreases j,
{
    if 0 < j <= s.len() && is_space(s[j - 1]) {
        last_kept_end(s, j - 1)
    } else {
        j
    }
}

/// `s` without the white space at its start and at its end.
pub open spec fn trimmed(s: Seq<char>) -> Seq<char> {
    let from = first_kept(s, 0);
    let to = last_kept_end(s, s.len() as int);
    if from < to {
        s.subrange(from, to)
    } else {
        Seq::empty()
    }
}

/// Why a path has no Windows form.
#[derive(Debug, Clone, PartialEq, Eq)]
pub enum PathError {
    /// The resolver ran and failed; `detail` is what it wrote to its
    /// error stream, trimmed.
    ResolverFailed { detail: String },
    /// The resolver's output is no UTF-8 text.
    InvalidOutput,
}

/// What a `PathError` stands for in contracts.
pub enum PathErrorView {
    ResolverFailed { detail: Seq<char> },
    InvalidOutput,
}

impl View for PathError {
    type V = PathErrorView;

    open spec fn view(&self) -> PathErrorView {
        match self {
            PathError::ResolverFailed { detail } => PathErrorView::ResolverFailed {
                detail: detail@,
            },
            PathError::InvalidOutput => PathErrorView::InvalidOutput,
        }
    }
}

/// What the resolver's run amounts to: its output, trimmed, where it
/// succeeded and wrote text (`stdout` is `None` where what it wrote is no
/// UTF-8); its trimmed complaint where it failed.
pub open spec fn resolved(succeeded: bool, stdout: Option<Seq<char>>, stderr: Seq<char>) -> Result<
    Seq<char>,
    PathErrorView,
> {
    if !succeeded {
        Err(PathErrorView::ResolverFailed { detail: trimmed(stderr) })
    } else {
        match stdout {
            Some(text) => Ok(trimmed(text)),
            None => Err(PathErrorView::InvalidOutput),
        }
    }
}

/// What a user is told of a `PathError`.
pub open spec fn error_text(e: PathErrorView) -> Seq<char> {
    match e {
        PathErrorView::ResolverFailed { detail } => "wslpath failed: "@ + detail,
        PathErrorView::InvalidOutput => "wslpath output returned invalid UTF-8"@,
    }
}

/// Whether `c` is white space.
pub fn is_space_char(c: char) -> (r: bool)
    ensures
        r == is_space(c),
{
    let n: u32 = c as u32;
    (0x09 <= n && n <= 0x0D) || n == 0x20 || n == 0x85 || n == 0xA0 || n == 0x1680 || (0x2000 <= n
        && n <= 0x200A) || n == 0x2028 || n == 0x2029 || n == 0x202F || n == 0x205F || n
        == 0x3000
}

/// `text` without the white space at its start and at its end.
pub fn trim(text: &str) -> (out: String)
    ensures
        out@ == trimmed(text@),
{
    let chars = chars_of(text);
    let mut from: usize = 0;
    while from < chars.len() && is_space_char(chars[from])
        invariant
            from <= chars.len(),
            first_kept(chars@, 0) == first_kept(chars@, from as int),
        decreases chars.len() - from,
    {
        from += 1;
    }
    let mut to: usize = chars.len();
    while to > 0 && is_space_char(chars[to - 1])
        invariant
            to <= chars.len(),
            last_kept_end(chars@, chars.len() as int) == last_kept_end(chars@, to as int),
        decreases to,
    {
        to -= 1;
    }
    if from < to {
        string_of(&chars, from, to)
    } else {
        String::new()
    }
}

/// Reads the outcome of one run of the resolver: whether it succeeded,
/// what it wrote (`None` where that is no UTF-8), and what it complained
/// of.
pub fn windows_path_from_output(succeeded: bool, stdout: Option<&str>, stderr: &str) -> (r: Result<
    String,
    PathError,
>)
    ensures
        match r {
            Ok(path) => Ok::<Seq<char>, PathErrorView>(path@),
            Err(e) => Err(e@),
        } == resolved(
            succeeded,
            match stdout {
                Some(text) => Some(text@),
                None => None,
            },
            stderr@,
        ),
{
    if !succeeded {
        return Err(PathError::ResolverFailed { detail: trim(stderr) });
    }
    match stdout {
        Some(text) => Ok(trim(text)),
        None => Err(PathError::InvalidOutput),
    }
}

impl PathError {
    /// What to tell the user.
    pub fn message(&self) -> (text: String)
        ensures
            text@ == error_text(self@),
    {
        match self {
            PathError::ResolverFailed { detail } => {
                let mut text = "wslpath failed: ".to_owned();
                text.append(detail.as_str());
                text
            },
            PathError::InvalidOutput => "wslpath output returned invalid UTF-8".to_owned(),
        }
    }
}

} // verus!
