//! The model of a bundling run: what it has written, where it is, what it asks for
//! next, and what each reply makes of it.

use crate::paths::{rewritten, Replacement};
use crate::grammar::{declared_mod, imported, is_link_line, is_warn_line};
use crate::pattern::{
    always, first_group_of, import_source, is_plain_name, line_pattern, link_source, matches_line,
    name_compiles, replaced, MINIFY, MOD_SOURCE, WARN_SOURCE,
};
use crate::strip::{
    block_close, law_open_string_keeps_the_line, law_string_ends_at_its_close,
    law_trailing_comment_is_dropped, law_unclosed_block_swallows_the_line, leaves_inside,
    lemma_quoted_close, quoted_close, reads_code, stripped, Inside,
};
use crate::text::{drop_feed, drop_space, is_blank, skip_space};
use vstd::prelude::*;

verus! {

/// Why a run has failed.
#[derive(Clone, Copy, PartialEq, Eq, Structural, Debug)]
pub enum BundleError {
    /// The path of the binary's source could not be made canonical.
    Canonicalize,
    /// No directory above the binary's source holds a `Cargo.toml`.
    NoManifest,
    /// The manifest could not be read or parsed.
    BadManifest,
    /// The manifest describes no package, so there is no crate name.
    NoCrateName,
    /// The binary's source could not be opened.
    OpenBin,
    /// The crate name makes a regular expression that does not compile.
    BadPattern,
    /// `src/lib.rs` could not be opened.
    OpenLib,
    /// Neither file of a module could be opened.
    NoModFile,
    /// A line of source could not be read.
    Read,
    /// A line matched, but the group that was looked for took no part in it.
    CaptureNotFound,
    /// The bundle could not be flushed.
    Flush,
    /// The reply was none that the request allows.
    UnexpectedReply,
}

/// Where a run is.
#[derive(Clone, Copy, PartialEq, Eq, Structural, Debug)]
pub enum Phase {
    /// Waiting for the path of the binary's source to be made canonical.
    Canonicalizing,
    /// Looking for the nearest directory with a `Cargo.toml`.
    Searching,
    /// Waiting for the manifest.
    LoadingManifest,
    /// Waiting for the binary's source.
    OpeningBin,
    /// Waiting for `src/lib.rs`.
    OpeningLib,
    /// Waiting for the `<path>.rs` of a module.
    OpeningMod,
    /// Waiting for the `<path>/mod.rs` of a module.
    OpeningModDir,
    /// Waiting for the next line of the innermost open file.
    Reading,
    /// Waiting for the bundle to be flushed.
    Flushing,
    /// Done.
    Finished,
    /// Given up.
    Failed(BundleError),
}

/// A module of the library: its name, the path of its source below `src` without the
/// suffix, and the path by which it is imported.
pub struct ModView {
    pub name: Seq<char>,
    pub path: Seq<char>,
    pub import: Seq<char>,
}

/// An open source file.
pub enum FrameView {
    Bin,
    Lib,
    Mod(ModView),
}

/// What a run asks of the outside.
pub enum RequestView {
    /// Make this path canonical.
    Canonicalize(Seq<char>),
    /// Say whether the next directory upwards holds a `Cargo.toml`.
    Probe,
    /// Parse the manifest and hand over the name of its package.
    LoadManifest,
    /// Open the source of the binary.
    OpenBin(Seq<char>),
    /// Open this file below the directory of the manifest.
    OpenSource(Seq<char>),
    /// Read the next line of the file opened last that is not at its end.
    ReadLine,
    /// Print this line, if there is one, and flush the bundle.
    Flush(Option<Seq<char>>),
    /// Nothing: the bundle is complete.
    Finished,
    /// Nothing: the run has failed.
    Failed(BundleError),
}

/// What the outside replies.
pub enum ReplyView {
    /// It is done: canonical, opened, flushed.
    Done,
    /// It could not be done.
    Failed,
    /// The directory holds a `Cargo.toml`.
    Present,
    /// The directory holds none.
    Absent,
    /// There is no further directory.
    Exhausted,
    /// The name of the manifest's package, if it has one.
    Manifest(Option<Seq<char>>),
    /// A line, with the line feed that ends it.
    Line(Seq<char>),
    /// The end of the file. The file is closed.
    Eof,
}

/// What has been written, and all that decides how the next line is.
pub struct Pen {
    /// What has been written so far.
    pub bundle_file: Seq<char>,
    pub crate_name: Seq<char>,
    pub minify: bool,
    /// Whether the lines come from the library.
    pub in_lib: bool,
    pub strip_comments: bool,
    /// What the next line starts inside of, while comments are stripped.
    pub inside: Inside,
    /// Whether the next comment lines are kept verbatim despite `strip_comments`.
    pub keep_block: bool,
}

/// The state of a run.
pub struct BundleState {
    pub binrs_filename: Seq<char>,
    pub bundle_filename: Option<Seq<char>>,
    pub pen: Pen,
    /// The import paths of the modules that have been expanded.
    pub skip_use: Set<Seq<char>>,
    pub phase: Phase,
    /// The open files, the innermost last.
    pub frames: Seq<FrameView>,
    /// The module that is being opened.
    pub opening: Option<ModView>,
    /// The name of the library that is looked for in the binary's source.
    pub library: Option<Seq<char>>,
}

/// A line as `minify` writes it: without its leading white space.
///
/// (A text with a line feed in it is no line; the regular expression decides.)
pub open spec fn minified(line: Seq<char>) -> Seq<char> {
    if line.contains('\n') {
        replaced(MINIFY@, line, Replacement::FirstGroup, "contents"@, ""@)
    } else {
        skip_space(line)
    }
}

impl Pen {
    /// `text` is written.
    pub open spec fn push(self, text: Seq<char>) -> Pen {
        Pen { bundle_file: self.bundle_file + text, ..self }
    }

    /// The text that a line comes out as.
    pub open spec fn line_text(self, line: Seq<char>) -> Seq<char> {
        let line = if self.in_lib {
            rewritten(line, self.crate_name)
        } else {
            line
        };
        let line = if self.minify {
            minified(line)
        } else {
            line
        };
        line + "\n"@
    }

    /// The line is written, with its paths rewritten in the library, and minified.
    pub open spec fn emit_line(self, line: Seq<char>) -> Pen {
        self.push(self.line_text(line))
    }

    /// Whether the next line starts inside a block comment or a string literal, as far as
    /// that is known: only while comments are stripped is it looked at.
    pub open spec fn starts_inside(self) -> bool {
        self.strip_comments && !reads_code(self.inside)
    }

    /// The line is read but not written. Like any line that is no comment line, it ends
    /// keep mode.
    pub open spec fn pass_line(self, line: Seq<char>) -> Pen {
        if self.strip_comments {
            Pen { keep_block: false, inside: leaves_inside(line, self.inside), ..self }
        } else {
            self
        }
    }

    /// The line is written, without its comments where they are stripped.
    pub open spec fn write_line(self, line: Seq<char>) -> Pen {
        let text = skip_space(line);
        if !self.strip_comments {
            self.emit_line(line)
        } else if !self.starts_inside() && text == "// bundle-keep"@ {
            Pen { keep_block: true, ..self }
        } else if self.keep_block && "//"@.is_prefix_of(text) {
            self.push(line + "\n"@)
        } else {
            let rest = stripped(line, self.inside);
            let next = self.pass_line(line);
            // A blank line of a string literal is part of it.
            if is_blank(rest) && !(self.inside is Text) {
                next
            } else {
                next.emit_line(rest)
            }
        }
    }
}

/// The name of a package as that of its crate.
pub open spec fn underscored(name: Seq<char>) -> Seq<char> {
    name.map_values(
        |c: char|
            if c == '-' {
                '_'
            } else {
                c
            },
    )
}

/// The line that opens a module.
pub open spec fn mod_head(name: Seq<char>) -> Seq<char> {
    "pub mod "@ + name + " {\n"@
}

/// The line that takes the place of an import from the library.
pub open spec fn import_line(submod: Seq<char>) -> Seq<char> {
    "use self::"@ + submod + ";"@
}

/// Whether a line is a `#![warn(...)]`, which is dropped.
///
/// (Here and below, a text with a line feed in it is no line; the regular expression
/// decides.)
pub open spec fn warns(line: Seq<char>) -> bool {
    if line.contains('\n') {
        matches_line(line_pattern(WARN_SOURCE@), line)
    } else {
        is_warn_line(line)
    }
}

/// Whether a line of the binary's source pulls in the library of this name. If the name
/// is not plain, it is read as part of a regular expression.
pub open spec fn links(crate_name: Seq<char>, line: Seq<char>) -> bool {
    if line.contains('\n') || !is_plain_name(crate_name) {
        matches_line(line_pattern(link_source(crate_name)), line)
    } else {
        is_link_line(crate_name, line)
    }
}

/// What a line of the binary's source imports from the library of this name, if it does.
pub open spec fn imports(crate_name: Seq<char>, line: Seq<char>) -> Option<Option<Seq<char>>> {
    if line.contains('\n') || !is_plain_name(crate_name) {
        first_group_of(line_pattern(import_source(crate_name)), line, "submod"@)
    } else {
        always(imported(crate_name, line))
    }
}

/// The name of the module that a line of the library declares, if it does. If the name is
/// missing, white space may take its place.
pub open spec fn declares(line: Seq<char>) -> Option<Option<Seq<char>>> {
    if line.contains('\n') {
        first_group_of(line_pattern(MOD_SOURCE@), line, "m"@)
    } else {
        always(declared_mod(line))
    }
}

/// The module that `mod name;` declares in a module, or in the root of the library.
pub open spec fn child(parent: Option<ModView>, name: Seq<char>) -> ModView {
    match parent {
        None => ModView { name, path: name, import: name },
        Some(p) => ModView { name, path: p.path + "/"@ + name, import: p.import + "::"@ + name },
    }
}

impl BundleState {
    /// The pen has gone on.
    pub open spec fn with_pen(self, pen: Pen) -> BundleState {
        BundleState { pen, ..self }
    }

    /// The run fails.
    pub open spec fn fail(self, error: BundleError) -> BundleState {
        BundleState { phase: Phase::Failed(error), ..self }
    }

    /// A line of the binary's source: the line that pulls the library in becomes the
    /// head of the library's module, and imports from the library become imports from
    /// that module. A line that starts inside a comment or a literal is neither.
    pub open spec fn bin_line(self, line: Seq<char>) -> BundleState {
        let library = self.library->0;
        if self.pen.starts_inside() {
            self.with_pen(self.pen.write_line(line))
        } else if warns(line) {
            self.with_pen(self.pen.pass_line(line))
        } else if links(library, line) {
            BundleState {
                phase: Phase::OpeningLib,
                ..self.with_pen(self.pen.pass_line(line).push(mod_head(self.pen.crate_name)))
            }
        } else {
            match imports(library, line) {
                Some(Some(submod)) => self.with_pen(self.pen.write_line(import_line(submod))),
                Some(None) => self.fail(BundleError::CaptureNotFound),
                None => self.with_pen(self.pen.write_line(line)),
            }
        }
    }

    /// A line of the library's source, or of the module `parent`: a declared module is
    /// opened, unless it is `tests`. A line that starts inside a comment or a literal
    /// declares none.
    pub open spec fn lib_line(self, parent: Option<ModView>, line: Seq<char>) -> BundleState {
        if self.pen.starts_inside() {
            self.with_pen(self.pen.write_line(line))
        } else if warns(line) {
            self.with_pen(self.pen.pass_line(line))
        } else {
            match declares(line) {
                Some(Some(name)) => if name == "tests"@ {
                    self.with_pen(self.pen.pass_line(line))
                } else {
                    BundleState {
                        phase: Phase::OpeningMod,
                        opening: Some(child(parent, name)),
                        ..self.with_pen(self.pen.pass_line(line))
                    }
                },
                Some(None) => self.fail(BundleError::CaptureNotFound),
                None => self.with_pen(self.pen.write_line(line)),
            }
        }
    }

    /// A line, as read, of the innermost open file. Trailing white space goes; in
    /// `src/lib.rs` only the line feed does.
    pub open spec fn read_line(self, raw: Seq<char>) -> BundleState {
        match self.frames.last() {
            FrameView::Bin => self.bin_line(drop_space(raw)),
            FrameView::Lib => self.lib_line(None, drop_feed(raw)),
            FrameView::Mod(m) => self.lib_line(Some(m), drop_space(raw)),
        }
    }

    /// The innermost open file is at its end.
    pub open spec fn close(self) -> BundleState {
        let outer = BundleState { frames: self.frames.drop_last(), ..self };
        match self.frames.last() {
            FrameView::Bin => BundleState { phase: Phase::Flushing, ..outer },
            FrameView::Lib => outer.with_pen((Pen { in_lib: false, ..self.pen }).push("}\n"@)),
            FrameView::Mod(_) => outer.with_pen(self.pen.push("}\n"@)),
        }
    }

    /// The binary's source is open. The run fails if the patterns that the crate name
    /// makes do not compile.
    pub open spec fn enter_bin(self) -> BundleState {
        if name_compiles(self.pen.crate_name) {
            BundleState {
                phase: Phase::Reading,
                frames: seq![FrameView::Bin],
                library: Some(self.pen.crate_name),
                ..self
            }
        } else {
            self.fail(BundleError::BadPattern)
        }
    }

    /// `src/lib.rs` is open.
    pub open spec fn enter_lib(self) -> BundleState {
        BundleState {
            phase: Phase::Reading,
            pen: Pen { in_lib: true, ..self.pen },
            frames: self.frames.push(FrameView::Lib),
            ..self
        }
    }

    /// The source of the module that was being opened is open.
    pub open spec fn enter_mod(self) -> BundleState {
        let m = self.opening->0;
        BundleState {
            phase: Phase::Reading,
            frames: self.frames.push(FrameView::Mod(m)),
            opening: None,
            skip_use: self.skip_use.insert(m.import),
            ..self.with_pen(self.pen.push(mod_head(m.name)))
        }
    }

    /// What a reply makes of the run.
    pub open spec fn step(self, reply: ReplyView) -> BundleState {
        match (self.phase, reply) {
            (Phase::Finished, _) => self,
            (Phase::Failed(_), _) => self,
            (Phase::Canonicalizing, ReplyView::Done) => BundleState {
                phase: Phase::Searching,
                ..self
            },
            (Phase::Canonicalizing, ReplyView::Failed) => self.fail(BundleError::Canonicalize),
            (Phase::Searching, ReplyView::Present) => BundleState {
                phase: Phase::LoadingManifest,
                ..self
            },
            (Phase::Searching, ReplyView::Absent) => self,
            (Phase::Searching, ReplyView::Exhausted) => self.fail(BundleError::NoManifest),
            (Phase::LoadingManifest, ReplyView::Manifest(Some(name))) => BundleState {
                phase: Phase::OpeningBin,
                pen: Pen { crate_name: underscored(name), ..self.pen },
                ..self
            },
            (Phase::LoadingManifest, ReplyView::Manifest(None)) => self.fail(
                BundleError::NoCrateName,
            ),
            (Phase::LoadingManifest, ReplyView::Failed) => self.fail(BundleError::BadManifest),
            (Phase::OpeningBin, ReplyView::Done) => self.enter_bin(),
            (Phase::OpeningBin, ReplyView::Failed) => self.fail(BundleError::OpenBin),
            (Phase::OpeningLib, ReplyView::Done) => self.enter_lib(),
            (Phase::OpeningLib, ReplyView::Failed) => self.fail(BundleError::OpenLib),
            (Phase::OpeningMod, ReplyView::Done) => self.enter_mod(),
            (Phase::OpeningMod, ReplyView::Failed) => BundleState {
                phase: Phase::OpeningModDir,
                ..self
            },
            (Phase::OpeningModDir, ReplyView::Done) => self.enter_mod(),
            (Phase::OpeningModDir, ReplyView::Failed) => self.fail(BundleError::NoModFile),
            (Phase::Reading, ReplyView::Line(raw)) => self.read_line(raw),
            (Phase::Reading, ReplyView::Eof) => self.close(),
            (Phase::Reading, ReplyView::Failed) => self.fail(BundleError::Read),
            (Phase::Flushing, ReplyView::Done) => BundleState { phase: Phase::Finished, ..self },
            (Phase::Flushing, ReplyView::Failed) => self.fail(BundleError::Flush),
            _ => self.fail(BundleError::UnexpectedReply),
        }
    }

    /// What the run asks for.
    pub open spec fn asks(self) -> RequestView {
        match self.phase {
            Phase::Canonicalizing => RequestView::Canonicalize(self.binrs_filename),
            Phase::Searching => RequestView::Probe,
            Phase::LoadingManifest => RequestView::LoadManifest,
            Phase::OpeningBin => RequestView::OpenBin(self.binrs_filename),
            Phase::OpeningLib => RequestView::OpenSource("src/lib.rs"@),
            Phase::OpeningMod => RequestView::OpenSource(
                "src/"@ + self.opening->0.path + ".rs"@,
            ),
            Phase::OpeningModDir => RequestView::OpenSource(
                "src/"@ + self.opening->0.path + "/mod.rs"@,
            ),
            Phase::Reading => RequestView::ReadLine,
            Phase::Flushing => RequestView::Flush(
                match self.bundle_filename {
                    Some(name) => Some("rerun-if-changed="@ + name),
                    None => None,
                },
            ),
            Phase::Finished => RequestView::Finished,
            Phase::Failed(error) => RequestView::Failed(error),
        }
    }

    /// The open files are the binary's source, `src/lib.rs` and modules, nested in this
    /// order, the first two at most once.
    pub open spec fn is_nested(self) -> bool {
        forall|k: int|
            0 <= k < self.frames.len() ==> match #[trigger] self.frames[k] {
                FrameView::Bin => k == 0,
                FrameView::Lib => k == 1,
                FrameView::Mod(_) => k >= 2,
            }
    }

    /// The parts of a state belong together: files are open exactly while lines are read
    /// or a further file is opened, the lines come from the library exactly while
    /// `src/lib.rs` is open, and a module is opened only from inside the library, and only
    /// while it is waited for.
    pub open spec fn is_coherent(self) -> bool {
        &&& self.is_nested()
        &&& self.pen.in_lib <==> self.frames.len() >= 2
        &&& self.frames.len() > 0 ==> self.library is Some
        &&& match self.phase {
            Phase::Reading => self.frames.len() > 0 && self.opening is None,
            Phase::OpeningLib => self.frames.len() == 1 && self.opening is None,
            Phase::OpeningMod | Phase::OpeningModDir => self.frames.len() >= 2
                && self.opening is Some,
            Phase::Failed(_) => true,
            _ => self.frames.len() == 0 && self.opening is None,
        }
    }
}

/// Without stripping, every line is written, comments and all.
pub proof fn law_comments_stay_unless_stripped(pen: Pen, line: Seq<char>)
    requires
        !pen.strip_comments,
    ensures
        pen.write_line(line) == pen.push(pen.line_text(line)),
        !pen.in_lib && !pen.minify ==> pen.write_line(line) == pen.push(line + "\n"@),
{
}

/// The `// bundle-keep` marker is dropped, and keep mode begins. (Inside a block comment or
/// a string literal there are no markers.)
pub proof fn law_keep_marker_is_dropped(pen: Pen, line: Seq<char>)
    requires
        pen.strip_comments,
        reads_code(pen.inside),
        skip_space(line) == "// bundle-keep"@,
    ensures
        pen.write_line(line) == (Pen { keep_block: true, ..pen }),
{
}

/// In keep mode a comment line is written verbatim, whether it comes from the library or
/// not and whether lines are minified or not, and keep mode goes on. (The marker is left
/// out: it is dropped.)
pub proof fn law_kept_comments_stay(pen: Pen, line: Seq<char>)
    requires
        pen.strip_comments,
        pen.keep_block,
        "//"@.is_prefix_of(skip_space(line)),
        skip_space(line) != "// bundle-keep"@,
    ensures
        pen.write_line(line) == pen.push(line + "\n"@),
        pen.write_line(line).keep_block,
{
}

/// Keep mode ends at the first line that is no comment line, and that line is stripped as
/// if there had been no keep mode.
pub proof fn law_keep_mode_ends_at_code(pen: Pen, line: Seq<char>)
    requires
        pen.strip_comments,
        !("//"@.is_prefix_of(skip_space(line))),
    ensures
        !pen.write_line(line).keep_block,
        pen.write_line(line) == (Pen { keep_block: false, ..pen }).write_line(line),
        !pen.pass_line(line).keep_block,
{
    reveal_strlit("// bundle-keep");
    reveal_strlit("//");
    assert("// bundle-keep"@.subrange(0, 2) == "//"@);
}

/// Keep mode begins neither in a block comment nor in a string literal, and a line that
/// leaves one open ends it.
pub proof fn law_keep_mode_is_outside_comments_and_literals(pen: Pen, line: Seq<char>)
    requires
        pen.strip_comments,
        pen.keep_block ==> reads_code(pen.inside),
    ensures
        pen.write_line(line).keep_block ==> reads_code(pen.write_line(line).inside),
        pen.pass_line(line).keep_block ==> reads_code(pen.pass_line(line).inside),
{
}

/// Outside keep mode, block comments and literals, a line of which white space and a line
/// comment are all there is leaves no trace when comments are stripped. (The marker is left
/// out: it begins keep mode.)
pub proof fn law_comment_lines_vanish(pen: Pen, space: Seq<char>, comment: Seq<char>)
    requires
        pen.strip_comments,
        !pen.keep_block,
        pen.inside is Code,
        is_blank(space),
        skip_space(space + seq!['/', '/'] + comment) != "// bundle-keep"@,
    ensures
        pen.write_line(space + seq!['/', '/'] + comment) == pen,
{
    law_trailing_comment_is_dropped(space, comment);
}

/// While comments are stripped, a line inside a block comment that does not close it
/// leaves no trace, whatever stands in it: in the library's source and in the binary's.
pub proof fn law_commented_lines_vanish(
    s: BundleState,
    parent: Option<ModView>,
    line: Seq<char>,
)
    requires
        s.pen.strip_comments,
        !s.pen.keep_block,
        s.pen.inside is Comment,
        block_close(line, 0) is None,
    ensures
        s.pen.write_line(line) == s.pen,
        s.bin_line(line) == s,
        s.lib_line(parent, line) == s,
{
    law_unclosed_block_swallows_the_line(line);
}

/// While comments are stripped, a line inside a string literal that does not close it is
/// written like a line without comments, whatever stands in it: in the library's source
/// and in the binary's.
pub proof fn law_lines_of_a_string_stay(s: BundleState, parent: Option<ModView>, line: Seq<char>)
    requires
        s.pen.strip_comments,
        !s.pen.keep_block,
        s.pen.inside is Text,
        quoted_close(line, 0, '"') is None,
    ensures
        s.pen.write_line(line) == s.pen.emit_line(line),
        s.bin_line(line) == s.with_pen(s.pen.emit_line(line)),
        s.lib_line(parent, line) == s.with_pen(s.pen.emit_line(line)),
{
    law_open_string_keeps_the_line(line);
}

/// While comments are stripped, the line that closes a string literal which an earlier line
/// has left open is written up to the closing quote, and the rest of it without its
/// comments.
pub proof fn law_end_of_a_string_stays(pen: Pen, line: Seq<char>)
    requires
        pen.strip_comments,
        !pen.keep_block,
        pen.inside is Text,
        quoted_close(line, 0, '"') is Some,
    ensures
        ({
            let end = quoted_close(line, 0, '"')->0;
            let next = Pen { inside: leaves_inside(line, pen.inside), ..pen };
            &&& pen.write_line(line) == next.emit_line(stripped(line, pen.inside))
            &&& line.take(end).is_prefix_of(stripped(line, pen.inside))
        }),
{
    law_string_ends_at_its_close(line);
    lemma_quoted_close(line, 0, '"');
}

/// A module `tests` is left out: its declaration is dropped, and nothing is opened.
pub proof fn law_tests_module_is_left_out(
    s: BundleState,
    parent: Option<ModView>,
    line: Seq<char>,
)
    requires
        !s.pen.starts_inside(),
        declares(line) == Some(Some("tests"@)),
    ensures
        s.lib_line(parent, line) == s.with_pen(s.pen.pass_line(line)),
        s.lib_line(parent, line).pen.bundle_file == s.pen.bundle_file,
{
}

} // verus!
