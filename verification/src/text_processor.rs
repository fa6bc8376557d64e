//! The text pipeline: the transform of a line, the frame around a file,
//! and what a run over files or over standard input writes.

use vstd::prelude::*;
use crate::strings::{same_text, string_views};
use crate::paths::{
    lemma_sorting_ignores_input_order, path_views, sort_paths, sorted_by_text, told_apart_by_text,
    InputPath, PathView,
};
use crate::sanitize::{
    csi_end, is_digit, lemma_sanitized_is_clean, lemma_sanitized_of_clean,
    lemma_sequence_starts_with_escape, lemma_stripped_without_sequences, sanitize, sanitized,
    strip_ansi_sequences, stripped, survives,
};

verus! {

/// How the text pipeline frames and cleans its output.
#[derive(Debug, Clone, Copy, PartialEq, Eq)]
pub struct TextOptions {
    /// Leave out the per-file header, the blank separator and the footer.
    pub no_header: bool,
    /// Remove colour escape sequences, and with them every control
    /// character but the tab.
    pub strip_ansi: bool,
    /// Wrap each file in a markdown code fence.
    pub use_markdown: bool,
    /// End every emitted line with CR LF in place of LF.
    pub use_crlf: bool,
}

/// What the line transform makes of `line`: with `strip_ansi`, the line
/// without control sequences and then without control characters;
/// without it, the line as it is.
pub open spec fn transformed(line: Seq<char>, opts: TextOptions) -> Seq<char> {
    if opts.strip_ansi {
        sanitized(stripped(line))
    } else {
        line
    }
}

/// The line terminator that `opts` asks for.
pub open spec fn terminator(opts: TextOptions) -> Seq<char> {
    if opts.use_crlf {
        seq!['\r', '\n']
    } else {
        seq!['\n']
    }
}

/// The line transform without the terminator.
pub fn transform_text(line: &str, opts: &TextOptions) -> (out: String)
    ensures
        out@ == transformed(line@, *opts),
{
    if opts.strip_ansi {
        let plain = strip_ansi_sequences(line);
        sanitize(plain.as_str())
    } else {
        line.to_owned()
    }
}

/// The line terminator that `opts` asks for.
pub fn line_ending(opts: &TextOptions) -> (out: &'static str)
    ensures
        out@ == terminator(*opts),
{
    if opts.use_crlf {
        proof {
            reveal_strlit("\r\n");
        }
        assert("\r\n"@ == seq!['\r', '\n']);
        "\r\n"
    } else {
        proof {
            reveal_strlit("\n");
        }
        assert("\n"@ == seq!['\n']);
        "\n"
    }
}

/// Transforms one line and ends it with the terminator.
pub fn transform_line(line: &str, opts: &TextOptions) -> (out: String)
    ensures
        out@ == transformed(line@, *opts) + terminator(*opts),
{
    let mut out = transform_text(line, opts);
    out.append(line_ending(opts));
    out
}

/// One regular file as the pipeline reads it: its path and its lines,
/// each without its line delimiter.
#[derive(Debug, Clone, PartialEq, Eq)]
pub struct SourceFile {
    pub path: String,
    pub lines: Vec<String>,
}

/// What a `SourceFile` stands for in contracts.
pub struct FileText {
    pub path: Seq<char>,
    pub lines: Seq<Seq<char>>,
}

impl View for SourceFile {
    type V = FileText;

    open spec fn view(&self) -> FileText {
        FileText { path: self.path@, lines: string_views(self.lines@) }
    }
}

/// The views of a sequence of files.
pub open spec fn file_views(files: Seq<SourceFile>) -> Seq<FileText> {
    files.map_values(|f: SourceFile| f@)
}

/// Everything the pipeline could read: the regular files that exist, and
/// standard input.
#[derive(Debug, Clone, PartialEq, Eq)]
pub struct InputSnapshot {
    /// The regular files that exist. Where two entries have one path, the
    /// first stands for the file.
    pub files: Vec<SourceFile>,
    /// Whether standard input is an interactive terminal.
    pub stdin_is_terminal: bool,
    /// The lines of standard input.
    pub stdin_lines: Vec<String>,
}

/// Why the pipeline produced nothing.
#[derive(Debug, Clone, Copy, PartialEq, Eq, Structural)]
pub enum PipelineError {
    /// No file was named and standard input is an interactive terminal.
    NoInput,
}

/// The index of the first file at or after `i` whose path is `path`.
pub open spec fn position_from(disk: Seq<FileText>, path: Seq<char>, i: int) -> Option<int>
    decreases disk.len() - i,
{
    if i < 0 || i >= disk.len() {
        None
    } else if disk[i].path == path {
        Some(i)
    } else {
        position_from(disk, path, i + 1)
    }
}

/// The lines of the file that `path` names, if it exists.
pub open spec fn found(disk: Seq<FileText>, path: Seq<char>) -> Option<Seq<Seq<char>>> {
    match position_from(disk, path, 0) {
        Some(i) => Some(disk[i].lines),
        None => None,
    }
}

/// The header line of a file.
pub open spec fn header(path: Seq<char>, stamp: Seq<char>) -> Seq<char> {
    "# FILE: "@ + path + " READ: "@ + stamp
}

/// The language tag of a file's fence: its extension, or nothing.
pub open spec fn fence_tag(path: PathView) -> Seq<char> {
    match path.extension {
        Some(e) => e,
        None => Seq::empty(),
    }
}

/// The line that opens a file's fence.
pub open spec fn opening_fence(path: PathView) -> Seq<char> {
    "```"@ + fence_tag(path)
}

/// The line that closes a fence.
pub open spec fn closing_fence() -> Seq<char> {
    "```"@
}

/// The items with one space between each two.
pub open spec fn spaced(items: Seq<Seq<char>>) -> Seq<char>
    decreases items.len(),
{
    if items.len() == 0 {
        Seq::empty()
    } else if items.len() == 1 {
        items[0]
    } else {
        spaced(items.drop_last()) + seq![' '] + items.last()
    }
}

/// The footer line that names the processed paths.
pub open spec fn footer(processed: Seq<Seq<char>>) -> Seq<char> {
    "# End of FILES. SENT: "@ + spaced(processed)
}

/// The lines that go ahead of a file's content.
pub open spec fn prologue(path: PathView, opts: TextOptions, stamp: Seq<char>) -> Seq<Seq<char>> {
    let head = if opts.no_header {
        Seq::<Seq<char>>::empty()
    } else {
        seq![header(path.text, stamp)]
    };
    if opts.use_markdown {
        head.push(opening_fence(path))
    } else {
        head
    }
}

/// The content lines, each transformed.
pub open spec fn body(lines: Seq<Seq<char>>, opts: TextOptions) -> Seq<Seq<char>> {
    lines.map_values(|l: Seq<char>| transformed(l, opts))
}

/// The lines that follow a file's content.
pub open spec fn epilogue(opts: TextOptions) -> Seq<Seq<char>> {
    let tail = if opts.use_markdown {
        seq![closing_fence()]
    } else {
        Seq::<Seq<char>>::empty()
    };
    if opts.no_header {
        tail
    } else {
        tail.push(Seq::<char>::empty())
    }
}

/// All the lines that one file gives rise to.
pub open spec fn file_block(
    path: PathView,
    lines: Seq<Seq<char>>,
    opts: TextOptions,
    stamp: Seq<char>,
) -> Seq<Seq<char>> {
    prologue(path, opts, stamp) + body(lines, opts) + epilogue(opts)
}

/// The lines that close a run: the footer, where headers are on and more
/// than one file was processed.
pub open spec fn closing(processed: Seq<Seq<char>>, opts: TextOptions) -> Seq<Seq<char>> {
    if !opts.no_header && processed.len() > 1 {
        seq![footer(processed)]
    } else {
        Seq::empty()
    }
}

/// The blocks of the files among `paths` that exist, in the order of
/// `paths`.
pub open spec fn blocks(
    paths: Seq<PathView>,
    disk: Seq<FileText>,
    opts: TextOptions,
    stamp: Seq<char>,
) -> Seq<Seq<char>>
    decreases paths.len(),
{
    if paths.len() == 0 {
        Seq::empty()
    } else {
        let ahead = blocks(paths.drop_last(), disk, opts, stamp);
        match found(disk, paths.last().text) {
            Some(lines) => ahead + file_block(paths.last(), lines, opts, stamp),
            None => ahead,
        }
    }
}

/// The texts of the paths among `paths` that exist, in the order of
/// `paths`.
pub open spec fn processed_paths(paths: Seq<PathView>, disk: Seq<FileText>) -> Seq<Seq<char>>
    decreases paths.len(),
{
    if paths.len() == 0 {
        Seq::empty()
    } else {
        let ahead = processed_paths(paths.drop_last(), disk);
        if found(disk, paths.last().text) is Some {
            ahead.push(paths.last().text)
        } else {
            ahead
        }
    }
}

/// The lines of a run over files: the block of each file that exists, in
/// lexicographic order of the paths, and the footer.
pub open spec fn file_run(
    files: Seq<PathView>,
    disk: Seq<FileText>,
    opts: TextOptions,
    stamp: Seq<char>,
) -> Seq<Seq<char>> {
    let order = sorted_by_text(files);
    blocks(order, disk, opts, stamp) + closing(processed_paths(order, disk), opts)
}

/// The text that the lines make on the wire: each followed by the
/// terminator.
pub open spec fn emitted(lines: Seq<Seq<char>>, opts: TextOptions) -> Seq<char>
    decreases lines.len(),
{
    if lines.len() == 0 {
        Seq::empty()
    } else {
        emitted(lines.drop_last(), opts) + lines.last() + terminator(opts)
    }
}

/// What a run writes, or the reason it writes nothing: over the named
/// files where any list of files is given, else over standard input,
/// which must not be an interactive terminal.
pub open spec fn run_output(
    files: Option<Seq<PathView>>,
    disk: Seq<FileText>,
    stdin_is_terminal: bool,
    stdin_lines: Seq<Seq<char>>,
    opts: TextOptions,
    stamp: Seq<char>,
) -> Result<Seq<char>, PipelineError> {
    match files {
        Some(list) => Ok(emitted(file_run(list, disk, opts, stamp), opts)),
        None => if stdin_is_terminal {
            Err(PipelineError::NoInput)
        } else {
            Ok(emitted(body(stdin_lines, opts), opts))
        },
    }
}

/// What a run over files writes does not depend on the order in which
/// the files were named, where no two of them have the same text and
/// different extensions.
pub proof fn lemma_run_ignores_input_order(
    files_a: Seq<PathView>,
    files_b: Seq<PathView>,
    disk: Seq<FileText>,
    opts: TextOptions,
    stamp: Seq<char>,
)
    requires
        files_a.to_multiset() == files_b.to_multiset(),
        told_apart_by_text(files_a),
    ensures
        file_run(files_a, disk, opts, stamp) == file_run(files_b, disk, opts, stamp),
{
    lemma_sorting_ignores_input_order(files_a, files_b);
}

/// One more line adds itself and a terminator.
pub proof fn lemma_emitted_push(lines: Seq<Seq<char>>, line: Seq<char>, opts: TextOptions)
    ensures
        emitted(lines.push(line), opts) == emitted(lines, opts) + line + terminator(opts),
{
    assert(lines.push(line).drop_last() == lines);
}

/// What two runs of lines emit is what the first emits and then what the
/// second emits.
pub proof fn lemma_emitted_concat(a: Seq<Seq<char>>, b: Seq<Seq<char>>, opts: TextOptions)
    ensures
        emitted(a + b, opts) == emitted(a, opts) + emitted(b, opts),
    decreases b.len(),
{
    if b.len() == 0 {
        assert(a + b == a);
    } else {
        lemma_emitted_concat(a, b.drop_last(), opts);
        assert((a + b).drop_last() == a + b.drop_last());
        assert((a + b).last() == b.last());
    }
}

/// Every emitted line is followed by the terminator: between the end of
/// what the first `k` lines emit and the end of what the first `k + 1`
/// emit stand line `k` and the terminator, CR LF where `use_crlf` is set.
pub proof fn lemma_each_line_terminated(lines: Seq<Seq<char>>, opts: TextOptions, k: int)
    requires
        0 <= k < lines.len(),
    ensures
        ({
            let start = emitted(lines.take(k), opts).len() as int;
            let end = emitted(lines.take(k + 1), opts).len() as int;
            &&& 0 <= start <= end <= emitted(lines, opts).len()
            &&& emitted(lines, opts).subrange(start, end) == lines[k] + terminator(opts)
            &&& opts.use_crlf ==> end - start >= 2 && emitted(lines, opts).subrange(end - 2, end)
                == seq!['\r', '\n']
            &&& !opts.use_crlf ==> end - start >= 1 && emitted(lines, opts).subrange(end - 1, end)
                == seq!['\n']
        }),
{
    let head = lines.take(k);
    let upto = lines.take(k + 1);
    let rest = lines.skip(k + 1);
    assert(upto == head.push(lines[k]));
    lemma_emitted_push(head, lines[k], opts);
    assert(lines == upto + rest);
    lemma_emitted_concat(upto, rest, opts);
    let start = emitted(head, opts).len() as int;
    let end = emitted(upto, opts).len() as int;
    let all = emitted(lines, opts);
    assert(all.subrange(start, end) == lines[k] + terminator(opts));
    if opts.use_crlf {
        assert(all.subrange(end - 2, end) == seq!['\r', '\n']);
    } else {
        assert(all.subrange(end - 1, end) == seq!['\n']);
    }
}

/// A line that holds no control sequence and no control character other
/// than the tab passes through the transform unchanged.
pub proof fn lemma_clean_line_unchanged(line: Seq<char>, opts: TextOptions)
    requires
        forall|i: int| 0 <= i < line.len() ==> csi_end(line, i) is None,
        forall|i: int| 0 <= i < line.len() ==> survives(#[trigger] line[i]),
    ensures
        transformed(line, opts) == line,
{
    lemma_stripped_without_sequences(line, 0);
    assert(line.subrange(0, line.len() as int) == line);
    lemma_sanitized_of_clean(line);
}

/// With `strip_ansi`, the transformed line holds no control character
/// but the tab: no escape, backspace, bell or carriage return reaches the
/// output.
pub proof fn lemma_transformed_is_safe(line: Seq<char>, opts: TextOptions)
    requires
        opts.strip_ansi,
    ensures
        forall|i: int|
            0 <= i < transformed(line, opts).len() ==> survives(
                #[trigger] transformed(line, opts)[i],
            ),
{
    lemma_sanitized_is_clean(stripped(line));
}

/// With `strip_ansi`, no control sequence is left in the transformed
/// line, not even one that the removal of others would have put
/// together: the escape character that opens one does not survive.
pub proof fn lemma_transformed_has_no_sequence(line: Seq<char>, opts: TextOptions, i: int)
    requires
        opts.strip_ansi,
    ensures
        csi_end(transformed(line, opts), i) is None,
{
    lemma_transformed_is_safe(line, opts);
    lemma_sequence_starts_with_escape(transformed(line, opts), i);
    if 0 <= i < transformed(line, opts).len() {
        assert(survives(transformed(line, opts)[i]));
    }
}

/// The lines that go ahead of a file's content, as they are written: the
/// header unless `no_header` is set, the opening fence where
/// `use_markdown` is set.
pub fn file_prologue(path: &InputPath, opts: &TextOptions, stamp: &str) -> (out: String)
    ensures
        out@ == emitted(prologue(path@, *opts, stamp@), *opts),
{
    let mut out = String::new();
    let ghost mut lines = Seq::<Seq<char>>::empty();
    if !opts.no_header {
        out.append("# FILE: ");
        out.append(path.text.as_str());
        out.append(" READ: ");
        out.append(stamp);
        out.append(line_ending(opts));
        proof {
            lemma_emitted_push(lines, header(path@.text, stamp@), *opts);
            lines = lines.push(header(path@.text, stamp@));
            assert(out@ == emitted(lines, *opts));
        }
    }
    if opts.use_markdown {
        let ghost before = out@;
        out.append("```");
        match &path.extension {
            Some(e) => {
                out.append(e.as_str());
            },
            None => {
                assert(out@ + Seq::<char>::empty() == out@);
            },
        }
        out.append(line_ending(opts));
        proof {
            lemma_emitted_push(lines, opening_fence(path@), *opts);
            lines = lines.push(opening_fence(path@));
            assert(out@ == before + opening_fence(path@) + terminator(*opts));
        }
    }
    out
}

/// The lines that follow a file's content, as they are written: the
/// closing fence where `use_markdown` is set, a blank line unless
/// `no_header` is set.
pub fn file_epilogue(opts: &TextOptions) -> (out: String)
    ensures
        out@ == emitted(epilogue(*opts), *opts),
{
    let mut out = String::new();
    let ghost mut lines = Seq::<Seq<char>>::empty();
    if opts.use_markdown {
        out.append("```");
        out.append(line_ending(opts));
        proof {
            lemma_emitted_push(lines, closing_fence(), *opts);
            lines = lines.push(closing_fence());
            assert(out@ == emitted(lines, *opts));
        }
    }
    if !opts.no_header {
        let ghost before = out@;
        out.append(line_ending(opts));
        proof {
            lemma_emitted_push(lines, Seq::<char>::empty(), *opts);
            lines = lines.push(Seq::<char>::empty());
            assert(out@ == before + Seq::<char>::empty() + terminator(*opts));
        }
    }
    out
}

/// The items with one space between each two.
pub fn join_spaced(items: &Vec<String>) -> (out: String)
    ensures
        out@ == spaced(string_views(items@)),
{
    let mut out = String::new();
    let mut i: usize = 0;
    let ghost all = string_views(items@);
    assert(all.take(0) == Seq::<Seq<char>>::empty());
    while i < items.len()
        invariant
            i <= items.len(),
            all == string_views(items@),
            out@ == spaced(all.take(i as int)),
        decreases items.len() - i,
    {
        let ghost before = out@;
        if i > 0 {
            out.append(" ");
            proof {
                reveal_strlit(" ");
                assert(" "@ == seq![' ']);
            }
        }
        out.append(items[i].as_str());
        proof {
            let next = all.take(i + 1);
            assert(next.drop_last() == all.take(i as int));
            assert(next.last() == items@[i as int]@);
            if i == 0 {
                assert(before + items@[i as int]@ == items@[i as int]@);
            }
        }
        i += 1;
    }
    assert(all.take(i as int) == all);
    out
}

/// The lines that close a run, as they are written: the footer with the
/// processed paths, where headers are on and more than one file was
/// processed.
pub fn batch_footer(processed: &Vec<String>, opts: &TextOptions) -> (out: String)
    ensures
        out@ == emitted(closing(string_views(processed@), *opts), *opts),
{
    let mut out = String::new();
    if !opts.no_header && processed.len() > 1 {
        out.append("# End of FILES. SENT: ");
        let names = join_spaced(processed);
        out.append(names.as_str());
        out.append(line_ending(opts));
        proof {
            lemma_emitted_push(
                Seq::<Seq<char>>::empty(),
                footer(string_views(processed@)),
                *opts,
            );
            assert(Seq::<Seq<char>>::empty().push(footer(string_views(processed@))) == seq![
                footer(string_views(processed@)),
            ]);
        }
    }
    out
}

/// The content lines, each transformed and terminated.
pub fn render_lines(lines: &Vec<String>, opts: &TextOptions) -> (out: String)
    ensures
        out@ == emitted(body(string_views(lines@), *opts), *opts),
{
    let mut out = String::new();
    let mut i: usize = 0;
    let ghost all = body(string_views(lines@), *opts);
    assert(all.take(0) == Seq::<Seq<char>>::empty());
    while i < lines.len()
        invariant
            i <= lines.len(),
            all == body(string_views(lines@), *opts),
            out@ == emitted(all.take(i as int), *opts),
        decreases lines.len() - i,
    {
        let piece = transform_line(lines[i].as_str(), opts);
        proof {
            assert(all.take(i + 1) == all.take(i as int).push(all[i as int]));
            lemma_emitted_push(all.take(i as int), all[i as int], *opts);
            assert(out@ + piece@ == out@ + all[i as int] + terminator(*opts));
        }
        out.append(piece.as_str());
        i += 1;
    }
    assert(all.take(i as int) == all);
    out
}

/// The index of the first file in `disk` whose path is `path`.
pub fn find_file(disk: &Vec<SourceFile>, path: &str) -> (r: Option<usize>)
    ensures
        match r {
            Some(i) => position_from(file_views(disk@), path@, 0) == Some(i as int) && i
                < disk.len(),
            None => position_from(file_views(disk@), path@, 0) is None,
        },
{
    let mut i: usize = 0;
    while i < disk.len()
        invariant
            i <= disk.len(),
            position_from(file_views(disk@), path@, 0) == position_from(
                file_views(disk@),
                path@,
                i as int,
            ),
        decreases disk.len() - i,
    {
        if same_text(disk[i].path.as_str(), path) {
            return Some(i);
        }
        i += 1;
    }
    None
}

/// A run over files, one step at a time: the paths wait in lexicographic
/// order, and each in turn is either passed over or begun, which writes
/// its prologue and counts it as processed. Whoever drives the run reads
/// the files and writes what the steps return.
#[derive(Debug)]
pub struct FileRun {
    opts: TextOptions,
    stamp: String,
    order: Vec<InputPath>,
    next: usize,
    processed: Vec<String>,
}

impl FileRun {
    /// The paths that still wait, in the order in which they come up.
    pub closed spec fn pending(&self) -> Seq<PathView> {
        if self.next <= self.order@.len() {
            path_views(self.order@).skip(self.next as int)
        } else {
            Seq::empty()
        }
    }

    /// The texts of the paths that were begun, in that order.
    pub closed spec fn processed(&self) -> Seq<Seq<char>> {
        string_views(self.processed@)
    }

    /// The options of the run.
    pub closed spec fn options(&self) -> TextOptions {
        self.opts
    }

    /// The time that the headers carry.
    pub closed spec fn stamp(&self) -> Seq<char> {
        self.stamp@
    }

    /// A run over `files`, none of them processed yet.
    pub fn new(files: &Vec<InputPath>, opts: &TextOptions, stamp: &str) -> (run: FileRun)
        ensures
            run.pending() == sorted_by_text(path_views(files@)),
            run.processed() == Seq::<Seq<char>>::empty(),
            run.options() == *opts,
            run.stamp() == stamp@,
    {
        let order = sort_paths(files);
        assert(path_views(order@).skip(0) == path_views(order@));
        FileRun { opts: *opts, stamp: stamp.to_owned(), order, next: 0, processed: Vec::new() }
    }

    /// The path that comes up next, if any still waits.
    pub fn current(&self) -> (path: Option<&InputPath>)
        ensures
            match path {
                Some(p) => self.pending().len() > 0 && p@ == self.pending()[0],
                None => self.pending().len() == 0,
            },
    {
        if self.next < self.order.len() {
            assert(path_views(self.order@)[self.next as int] == self.order@[self.next as int]@);
            Some(&self.order[self.next])
        } else {
            None
        }
    }

    /// Passes over the path that comes up next: it names no regular file.
    pub fn skip(&mut self)
        ensures
            final(self).pending() == if old(self).pending().len() > 0 {
                old(self).pending().drop_first()
            } else {
                old(self).pending()
            },
            final(self).processed() == old(self).processed(),
            final(self).options() == old(self).options(),
            final(self).stamp() == old(self).stamp(),
    {
        if self.next < self.order.len() {
            assert(path_views(self.order@).skip(self.next as int).drop_first() == path_views(
                self.order@,
            ).skip(self.next + 1));
            self.next = self.next + 1;
        }
    }

    /// Begins the file that comes up next: counts its path as processed and
    /// returns the lines that go ahead of its content. Where no path
    /// waits, nothing changes and nothing is returned.
    pub fn begin_file(&mut self) -> (out: String)
        ensures
            final(self).options() == old(self).options(),
            final(self).stamp() == old(self).stamp(),
            old(self).pending().len() > 0 ==> {
                &&& final(self).pending() == old(self).pending().drop_first()
                &&& final(self).processed() == old(self).processed().push(
                    old(self).pending()[0].text,
                )
                &&& out@ == emitted(
                    prologue(old(self).pending()[0], old(self).options(), old(self).stamp()),
                    old(self).options(),
                )
            },
            old(self).pending().len() == 0 ==> {
                &&& final(self).pending() == old(self).pending()
                &&& final(self).processed() == old(self).processed()
                &&& out@ == Seq::<char>::empty()
            },
    {
        if self.next < self.order.len() {
            let path = &self.order[self.next];
            let out = file_prologue(path, &self.opts, self.stamp.as_str());
            let text = path.text.clone();
            proof {
                assert(path_views(self.order@)[self.next as int] == path@);
                assert(path_views(self.order@).skip(self.next as int).drop_first() == path_views(
                    self.order@,
                ).skip(self.next + 1));
                assert(string_views(self.processed@.push(text)) == string_views(
                    self.processed@,
                ).push(text@));
            }
            self.processed.push(text);
            self.next = self.next + 1;
            out
        } else {
            String::new()
        }
    }

    /// One line of content, transformed and terminated.
    pub fn line(&self, line: &str) -> (out: String)
        ensures
            out@ == transformed(line@, self.options()) + terminator(self.options()),
    {
        transform_line(line, &self.opts)
    }

    /// The lines that follow a file's content.
    pub fn end_file(&self) -> (out: String)
        ensures
            out@ == emitted(epilogue(self.options()), self.options()),
    {
        file_epilogue(&self.opts)
    }

    /// The lines that close the run.
    pub fn finish(&self) -> (out: String)
        ensures
            out@ == emitted(closing(self.processed(), self.options()), self.options()),
    {
        batch_footer(&self.processed, &self.opts)
    }
}

/// The remaining paths of `order` stand behind its first `i`.
proof fn lemma_skip_step(order: Seq<PathView>, i: int)
    requires
        0 <= i < order.len(),
    ensures
        order.skip(i).len() > 0,
        order.skip(i)[0] == order[i],
        order.skip(i).drop_first() == order.skip(i + 1),
        order.take(i + 1).drop_last() == order.take(i),
        order.take(i + 1).last() == order[i],
{
}

/// Runs the text pipeline over what `source` holds and returns what it
/// writes. With a list of files: the block of each file that exists, in
/// lexicographic order of the paths, then the footer; a path that names
/// no file in `source` is passed over. Without a list: the lines of
/// standard input, transformed; an interactive terminal in its place is
/// an error.
pub fn process_input(
    files: Option<Vec<InputPath>>,
    opts: &TextOptions,
    source: &InputSnapshot,
    stamp: &str,
) -> (r: Result<String, PipelineError>)
    ensures
        match r {
            Ok(out) => Ok::<Seq<char>, PipelineError>(out@),
            Err(e) => Err(e),
        } == run_output(
            match files {
                Some(list) => Some(path_views(list@)),
                None => None,
            },
            file_views(source.files@),
            source.stdin_is_terminal,
            string_views(source.stdin_lines@),
            *opts,
            stamp@,
        ),
{
    match files {
        Some(list) => {
            let mut run = FileRun::new(&list, opts, stamp);
            let ghost order = sorted_by_text(path_views(list@));
            let ghost disk = file_views(source.files@);
            let mut out = String::new();
            let ghost mut i: int = 0;
            assert(order.skip(0) == order);
            assert(order.take(0) == Seq::<PathView>::empty());
            loop
                invariant_except_break
                    0 <= i <= order.len(),
                    run.pending() == order.skip(i),
                invariant
                    disk == file_views(source.files@),
                    run.options() == *opts,
                    run.stamp() == stamp@,
                    0 <= i <= order.len(),
                    out@ == emitted(blocks(order.take(i), disk, *opts, stamp@), *opts),
                    run.processed() == processed_paths(order.take(i), disk),
                ensures
                    i == order.len(),
                decreases order.len() - i,
            {
                let found_at = match run.current() {
                    Some(path) => find_file(&source.files, path.text.as_str()),
                    None => {
                        break;
                    },
                };
                proof {
                    lemma_skip_step(order, i);
                }
                match found_at {
                    Some(at) => {
                        let file = &source.files[at];
                        let ghost path = order[i];
                        let ghost lines = string_views(file.lines@);
                        assert(disk[at as int] == file@);
                        let head = run.begin_file();
                        let content = render_lines(&file.lines, opts);
                        let tail = run.end_file();
                        out.append(head.as_str());
                        out.append(content.as_str());
                        out.append(tail.as_str());
                        proof {
                            let a = prologue(path, *opts, stamp@);
                            let b = body(lines, *opts);
                            let c = epilogue(*opts);
                            lemma_emitted_concat(a, b, *opts);
                            lemma_emitted_concat(a + b, c, *opts);
                            lemma_emitted_concat(
                                blocks(order.take(i), disk, *opts, stamp@),
                                file_block(path, lines, *opts, stamp@),
                                *opts,
                            );
                        }
                    },
                    None => {
                        run.skip();
                    },
                }
                proof {
                    i = i + 1;
                }
            }
            assert(order.take(i) == order);
            let tail = run.finish();
            out.append(tail.as_str());
            proof {
                lemma_emitted_concat(
                    blocks(order, disk, *opts, stamp@),
                    closing(processed_paths(order, disk), *opts),
                    *opts,
                );
            }
            Ok(out)
        },
        None => {
            if source.stdin_is_terminal {
                Err(PipelineError::NoInput)
            } else {
                Ok(render_lines(&source.stdin_lines, opts))
            }
        },
    }
}

/// The form of the time in a header: the date, `T`, the time of day to
/// the second, and `Z` for UTC.
pub open spec fn stamp_format() -> Seq<char> {
    "%Y-%m-%dT%H:%M:%SZ"@
}

/// Whether every character of `s` is a digit.
pub open spec fn all_digits(s: Seq<char>) -> bool {
    forall|i: int| 0 <= i < s.len() ==> is_digit(#[trigger] s[i])
}

/// A year as a stamp writes it: four digits, or, for a year that four
/// digits cannot hold, a sign and at least four digits.
pub open spec fn is_year_text(s: Seq<char>) -> bool {
    (s.len() == 4 && all_digits(s)) || (s.len() >= 5 && (s[0] == '+' || s[0] == '-')
        && all_digits(s.skip(1)))
}

/// What follows the year in a stamp: `-MM-DDTHH:MM:SSZ`, each letter but
/// `T` and `Z` a digit.
pub open spec fn is_day_and_time_text(t: Seq<char>) -> bool {
    &&& t.len() == 16
    &&& t[0] == '-' && is_digit(t[1]) && is_digit(t[2])
    &&& t[3] == '-' && is_digit(t[4]) && is_digit(t[5])
    &&& t[6] == 'T' && is_digit(t[7]) && is_digit(t[8])
    &&& t[9] == ':' && is_digit(t[10]) && is_digit(t[11])
    &&& t[12] == ':' && is_digit(t[13]) && is_digit(t[14])
    &&& t[15] == 'Z'
}

/// The form of a time in UTC to the second, as ISO 8601 writes it: the
/// year, then month, day, `T`, hour, minute, second and `Z`.
pub open spec fn is_utc_stamp(s: Seq<char>) -> bool {
    &&& s.len() >= 20
    &&& is_year_text(s.subrange(0, s.len() - 16))
    &&& is_day_and_time_text(s.subrange(s.len() - 16, s.len() as int))
}

/// `chrono::Utc::now`, formatted: the time at which it is called, written
/// as `format` says. Which time comes back depends on the clock; its form
/// does not. `format` is held to the one format this library uses, which
/// has no specifier that `chrono` would refuse. For it `chrono` writes the
/// year padded with zeros to four digits, with a sign ahead where four
/// digits cannot hold it, month, day, hour, minute and second each padded
/// with zeros to two digits, and the other characters as they stand.
#[verifier::external_body]
fn utc_now_text(format: &str) -> (stamp: String)
    requires
        format@ == stamp_format(),
    ensures
        is_utc_stamp(stamp@),
{
    chrono::Utc::now().format(format).to_string()
}

/// The time now, in UTC, in the form in which headers carry it. One such
/// stamp serves a whole run.
pub fn timestamp_now() -> (stamp: String)
    ensures
        is_utc_stamp(stamp@),
{
    utc_now_text("%Y-%m-%dT%H:%M:%SZ")
}

/// `atty::is` on standard input: whether it is a terminal. The answer is
/// the operating system's, and may change from one call to the next.
#[verifier::external_body]
fn stdin_is_terminal() -> bool {
    atty::is(atty::Stream::Stdin)
}

/// Whether standard input may serve as the source: not where it is an
/// interactive terminal, for then nothing was piped in.
pub fn stdin_gate(is_terminal: bool) -> (r: Result<(), PipelineError>)
    ensures
        r == if is_terminal {
            Err::<(), PipelineError>(PipelineError::NoInput)
        } else {
            Ok::<(), PipelineError>(())
        },
{
    if is_terminal {
        Err(PipelineError::NoInput)
    } else {
        Ok(())
    }
}

/// Asks whether standard input is a terminal, and whether it may
/// therefore serve as the source.
pub fn check_stdin() -> (r: Result<(), PipelineError>)
    ensures
        r is Err ==> r == Err::<(), PipelineError>(PipelineError::NoInput),
{
    stdin_gate(stdin_is_terminal())
}

impl PipelineError {
    /// What to tell the user.
    pub fn message(&self) -> (text: String)
        ensures
            text@ == "No input provided. Pipe data or specify files."@,
    {
        "No input provided. Pipe data or specify files.".to_owned()
    }
}

} // verus!
