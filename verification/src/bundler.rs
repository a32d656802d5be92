//! The bundler.

use crate::paths::{rewrite_with, Replacement};
use crate::pattern::{
    compile, first_group, import_source, is_match, line_pattern, link_source, name_compiles,
    replace_all, source_line_regex, LineRegex, CRATE_PATH, MINIFY, MOD_SOURCE, WARN_SOURCE,
};
use crate::state::{
    child, minified, underscored, BundleError, BundleState, FrameView, ModView, Pen, Phase,
    ReplyView, RequestView,
};
use crate::strip::{leaves_inside, reads_code, strip_line, stripped, Inside};
use crate::text::{
    chars_of, drop_space, is_blank_text, join, same_text, starts_with, trim_end, trim_feed,
    trim_start,
};
use vstd::prelude::*;
use vstd::string::*;

verus! {

/// A module of the library.
struct ModRef {
    name: String,
    path: String,
    import: String,
}

impl View for ModRef {
    type V = ModView;

    closed spec fn view(&self) -> ModView {
        ModView { name: self.name@, path: self.path@, import: self.import@ }
    }
}

/// An open source file.
enum Frame {
    Bin,
    Lib,
    Mod(ModRef),
}

impl View for Frame {
    type V = FrameView;

    closed spec fn view(&self) -> FrameView {
        match self {
            Frame::Bin => FrameView::Bin,
            Frame::Lib => FrameView::Lib,
            Frame::Mod(m) => FrameView::Mod(m@),
        }
    }
}

/// What a run asks of the outside.
#[derive(Debug)]
pub enum Request {
    /// Make this path canonical.
    Canonicalize(String),
    /// Say whether the next directory upwards holds a `Cargo.toml`, beginning with the
    /// canonical path itself.
    Probe,
    /// Parse the manifest that was found and hand over the name of its package.
    LoadManifest,
    /// Open the source of the binary.
    OpenBin(String),
    /// Open this file below the directory of the manifest.
    OpenSource(String),
    /// Read the next line of the file opened last that is not at its end.
    ReadLine,
    /// Print this line, if there is one, and flush the bundle.
    Flush(Option<String>),
    /// Nothing: the bundle is complete.
    Finished,
    /// Nothing: the run has failed.
    Failed(BundleError),
}

impl View for Request {
    type V = RequestView;

    open spec fn view(&self) -> RequestView {
        match self {
            Request::Canonicalize(path) => RequestView::Canonicalize(path@),
            Request::Probe => RequestView::Probe,
            Request::LoadManifest => RequestView::LoadManifest,
            Request::OpenBin(path) => RequestView::OpenBin(path@),
            Request::OpenSource(path) => RequestView::OpenSource(path@),
            Request::ReadLine => RequestView::ReadLine,
            Request::Flush(Some(line)) => RequestView::Flush(Some(line@)),
            Request::Flush(None) => RequestView::Flush(None),
            Request::Finished => RequestView::Finished,
            Request::Failed(error) => RequestView::Failed(*error),
        }
    }
}

/// What the outside replies.
#[derive(Debug)]
pub enum Reply {
    /// It is done: the path is canonical, the file is open, the bundle is flushed.
    Done,
    /// It could not be done.
    Failed,
    /// The directory holds a `Cargo.toml`.
    Present,
    /// The directory holds none.
    Absent,
    /// There is no further directory.
    Exhausted,
    /// The name of the manifest's package, if it has one.
    Manifest(Option<String>),
    /// A line, with the line feed that ends it.
    Line(String),
    /// The end of the file. The file is closed.
    Eof,
}

impl View for Reply {
    type V = ReplyView;

    open spec fn view(&self) -> ReplyView {
        match self {
            Reply::Done => ReplyView::Done,
            Reply::Failed => ReplyView::Failed,
            Reply::Present => ReplyView::Present,
            Reply::Absent => ReplyView::Absent,
            Reply::Exhausted => ReplyView::Exhausted,
            Reply::Manifest(Some(name)) => ReplyView::Manifest(Some(name@)),
            Reply::Manifest(None) => ReplyView::Manifest(None),
            Reply::Line(raw) => ReplyView::Line(raw@),
            Reply::Eof => ReplyView::Eof,
        }
    }
}

/// The regular expressions for the binary's source, with the name of the library that
/// they look for.
struct BinPatterns {
    library: String,
    link: LineRegex,
    import: LineRegex,
}

/// Puts the source of a binary and of the library that it uses into one text.
pub struct Bundler<'a> {
    binrs_filename: &'a str,
    bundle_filename: Option<&'a str>,
    bundle_file: String,
    _crate_name: String,
    skip_use: Vec<String>,
    minify: bool,
    /// Whether the line currently being processed comes from the lib (rewrites crate:: when true).
    in_lib: bool,
    /// Whether to strip comments from the output (useful to avoid leaking notes in submissions).
    strip_comments: bool,
    /// Tracks multi-line `/* */` block comments and string literals while stripping comments.
    inside: Inside,
    /// While true, subsequent `//` comment lines are preserved verbatim despite `strip_comments`
    /// (entered by a lone `// bundle-keep` marker line; the marker itself is dropped).
    keep_block: bool,
    phase: Phase,
    frames: Vec<Frame>,
    opening: Option<ModRef>,
    bin_patterns: Option<BinPatterns>,
    warn_re: LineRegex,
    mod_re: LineRegex,
    crate_path_re: LineRegex,
    minify_re: LineRegex,
}

impl<'a> View for Bundler<'a> {
    type V = BundleState;

    closed spec fn view(&self) -> BundleState {
        BundleState {
            binrs_filename: self.binrs_filename@,
            bundle_filename: match self.bundle_filename {
                Some(name) => Some(name@),
                None => None,
            },
            pen: Pen {
                bundle_file: self.bundle_file@,
                crate_name: self._crate_name@,
                minify: self.minify,
                in_lib: self.in_lib,
                strip_comments: self.strip_comments,
                inside: self.inside,
                keep_block: self.keep_block,
            },
            skip_use: self.skipped(),
            phase: self.phase,
            frames: self.frames@.map_values(|f: Frame| f@),
            opening: match self.opening {
                Some(m) => Some(m@),
                None => None,
            },
            library: match self.bin_patterns {
                Some(p) => Some(p.library@),
                None => None,
            },
        }
    }
}

impl BinPatterns {
    /// The regular expressions look for the library of that name.
    spec fn wf(self) -> bool {
        &&& self.link@ == line_pattern(link_source(self.library@))
        &&& self.import@ == line_pattern(import_source(self.library@))
    }
}

impl<'a> Bundler<'a> {
    /// The import paths of the modules that have been expanded.
    closed spec fn skipped(self) -> Set<Seq<char>> {
        Set::new(
            |s: Seq<char>|
                exists|i: int|
                    0 <= i < self.skip_use.len() && (#[trigger] self.skip_use[i])@ == s,
        )
    }

    /// The regular expressions are those of their names, no import path is listed twice,
    /// and the parts of the state belong together.
    pub closed spec fn wf(self) -> bool {
        &&& self.warn_re@ == line_pattern(WARN_SOURCE@)
        &&& self.mod_re@ == line_pattern(MOD_SOURCE@)
        &&& self.crate_path_re@ == CRATE_PATH@
        &&& self.minify_re@ == MINIFY@
        &&& self.bin_patterns matches Some(p) ==> p.wf()
        &&& forall|i: int, j: int|
            0 <= i < j < self.skip_use.len() ==> (#[trigger] self.skip_use[i])@ != (
            #[trigger] self.skip_use[j])@
        &&& self@.is_coherent()
    }

    /// A bundler for the binary whose source is `binrs_filename`. It appends to
    /// `bundle_file`.
    pub fn new_fd(binrs_filename: &'a str, bundle_file: String) -> (b: Bundler<'a>)
        ensures
            b.wf(),
            b@ == initial_state(binrs_filename@, None, bundle_file@),
    {
        let b = Bundler {
            binrs_filename,
            bundle_filename: None,
            bundle_file,
            _crate_name: String::new(),
            skip_use: Vec::new(),
            minify: false,
            in_lib: false,
            strip_comments: false,
            inside: Inside::Code,
            keep_block: false,
            phase: Phase::Canonicalizing,
            frames: Vec::new(),
            opening: None,
            bin_patterns: None,
            warn_re: source_line_regex(WARN_SOURCE).unwrap(),
            mod_re: source_line_regex(MOD_SOURCE).unwrap(),
            crate_path_re: compile(CRATE_PATH).unwrap(),
            minify_re: compile(MINIFY).unwrap(),
        };
        proof {
            assert(b.frames@.map_values(|f: Frame| f@) == Seq::<FrameView>::empty());
            assert(b.skipped() == Set::<Seq<char>>::empty());
        }
        b
    }

    /// A bundler for the binary whose source is `binrs_filename`. What it writes is meant
    /// for the file `bundle_filename`.
    pub fn new(binrs_filename: &'a str, bundle_filename: &'a str) -> (b: Bundler<'a>)
        ensures
            b.wf(),
            b@ == initial_state(binrs_filename@, Some(bundle_filename@), Seq::empty()),
    {
        let mut bundler = Self::new_fd(binrs_filename, String::new());
        bundler.bundle_filename = Some(bundle_filename);
        bundler
    }

    /// When enabled, lines are written without their leading white space.
    pub fn minify_set(&mut self, enable: bool)
        requires
            old(self).wf(),
        ensures
            final(self).wf(),
            final(self)@ == old(self)@.with_pen(Pen { minify: enable, ..old(self)@.pen }),
    {
        self.minify = enable;
    }

    /// When enabled, `//` line comments and `/* */` block comments are removed
    /// from the output (string, char, and raw-string literals are preserved).
    pub fn strip_comments_set(&mut self, enable: bool)
        requires
            old(self).wf(),
        ensures
            final(self).wf(),
            final(self)@ == old(self)@.with_pen(Pen { strip_comments: enable, ..old(self)@.pen }),
    {
        self.strip_comments = enable;
    }

    /// Sets the name of the crate. A run takes it from the manifest.
    pub fn crate_name(&mut self, name: &'a str)
        requires
            old(self).wf(),
        ensures
            final(self).wf(),
            final(self)@ == old(self)@.with_pen(Pen { crate_name: name@, ..old(self)@.pen }),
    {
        self._crate_name = name.to_owned();
    }

    /// What has been written.
    pub fn bundle_file(&self) -> (s: &str)
        ensures
            s@ == self@.pen.bundle_file,
    {
        self.bundle_file.as_str()
    }

    /// Removes comments from a line, as [`strip_line`] does; block comments and string
    /// literals that are left open are carried from line to line.
    pub fn strip_comments_in_line(&mut self, line: &str) -> (out: String)
        requires
            old(self).wf(),
        ensures
            final(self).wf(),
            out@ == stripped(line@, old(self)@.pen.inside),
            final(self)@ == old(self)@.with_pen(
                Pen { inside: leaves_inside(line@, old(self)@.pen.inside), ..old(self)@.pen },
            ),
    {
        let mut inside = self.inside;
        let out = strip_line(line, &mut inside);
        self.inside = inside;
        out
    }

    /// Whether the next line starts inside a block comment or a string literal, as far as
    /// that is known.
    fn starts_inside(&self) -> (b: bool)
        ensures
            b == self@.pen.starts_inside(),
    {
        self.strip_comments && matches!(
            self.inside,
            Inside::Comment | Inside::RawComment(_) | Inside::Text
        )
    }

    /// Reads a line that is not written.
    fn pass_line(&mut self, line: &str)
        requires
            old(self).wf(),
        ensures
            final(self).wf(),
            final(self)@ == old(self)@.with_pen(old(self)@.pen.pass_line(line@)),
    {
        if self.strip_comments {
            self.keep_block = false;
            let _ = self.strip_comments_in_line(line);
        }
    }

    /// Applies crate:: rewriting and minify, then writes the line. Comment handling already done.
    pub fn emit_line(&mut self, line: &str)
        requires
            old(self).wf(),
        ensures
            final(self).wf(),
            final(self)@ == old(self)@.with_pen(old(self)@.pen.emit_line(line@)),
    {
        let mut text = if self.in_lib {
            rewrite_with(&self.crate_path_re, line, self._crate_name.as_str())
        } else {
            line.to_owned()
        };
        if self.minify {
            let ghost before = text@;
            text = replace_all(
                &self.minify_re,
                text.as_str(),
                &Replacement::FirstGroup,
                "contents",
                "",
            );
            proof {
                assert(text@ == minified(before));
            }
        }
        text.append("\n");
        self.bundle_file.append(text.as_str());
    }

    /// Writes a line, without its comments where they are stripped.
    ///
    /// Credit/license preservation: a lone `// bundle-keep` marker enters "keep mode" in which
    /// the following `//` comment lines are kept verbatim despite strip_comments. The marker
    /// line itself is dropped from the output. Keep mode ends at the first non-comment line.
    /// Inside a block comment or a string literal there are no markers.
    pub fn write_line(&mut self, line: &str)
        requires
            old(self).wf(),
        ensures
            final(self).wf(),
            final(self)@ == old(self)@.with_pen(old(self)@.pen.write_line(line@)),
    {
        if !self.strip_comments {
            self.emit_line(line);
            return ;
        }
        let trimmed = trim_start(line);
        if !self.starts_inside() && same_text(trimmed, "// bundle-keep") {
            self.keep_block = true;
            return ;
        }
        if self.keep_block {
            if starts_with(trimmed, "//") {
                self.bundle_file.append(line);
                self.bundle_file.append("\n");
                proof {
                    assert(self@.pen.bundle_file == old(self)@.pen.bundle_file + (line@ + "\n"@));
                }
                return ;
            }
            self.keep_block = false;
        }
        let in_text = matches!(self.inside, Inside::Text);
        let stripped = self.strip_comments_in_line(line);
        // Drop lines that become empty (full-line comments), but not those of a string.
        if in_text || !is_blank_text(stripped.as_str()) {
            self.emit_line(stripped.as_str());
        }
    }
}

/// The name of a package as that of its crate: hyphens become underscores.
fn crate_name_of(package: &str) -> (r: String)
    ensures
        r@ == underscored(package@),
{
    let chars = chars_of(package);
    let mut r = String::new();
    let mut i: usize = 0;
    while i < chars.len()
        invariant
            chars@ == package@,
            i <= chars@.len(),
            r@ == underscored(package@.take(i as int)),
        decreases chars.len() - i,
    {
        r.push(
            if chars[i] == '-' {
                '_'
            } else {
                chars[i]
            },
        );
        proof {
            assert(package@.take(i + 1) == package@.take(i as int).push(package@[i as int]));
            assert(underscored(package@.take(i + 1)) == underscored(package@.take(i as int)).push(
                if package@[i as int] == '-' {
                    '_'
                } else {
                    package@[i as int]
                },
            ));
        }
        i = i + 1;
    }
    proof {
        assert(package@.take(i as int) == package@);
    }
    r
}

impl ModRef {
    /// The module that `mod name;` declares in the root of the library.
    fn top(name: String) -> (m: ModRef)
        ensures
            m@ == child(None, name@),
    {
        ModRef { path: name.clone(), import: name.clone(), name }
    }

    /// The module that `mod name;` declares in this module.
    fn child(&self, name: String) -> (m: ModRef)
        ensures
            m@ == child(Some(self@), name@),
    {
        ModRef {
            path: join(self.path.as_str(), "/", name.as_str()),
            import: join(self.import.as_str(), "::", name.as_str()),
            name,
        }
    }
}

/// Compiles the regular expressions for the binary's source.
fn compile_bin_patterns(crate_name: &str) -> (r: Option<BinPatterns>)
    ensures
        r matches Some(p) ==> {
            &&& p.wf()
            &&& p.library@ == crate_name@
        },
        r is Some == name_compiles(crate_name@),
{
    let link = source_line_regex(join(" extern  crate  ", crate_name, " ; ").as_str());
    let import = source_line_regex(join(" use  (?P<submod>", crate_name, "::.*) ; ").as_str());
    match (link, import) {
        (Ok(link), Ok(import)) => Some(
            BinPatterns { library: crate_name.to_owned(), link, import },
        ),
        _ => None,
    }
}

impl<'a> Bundler<'a> {
    fn fail(&mut self, error: BundleError)
        requires
            old(self).wf(),
        ensures
            final(self).wf(),
            final(self)@ == old(self)@.fail(error),
    {
        self.phase = Phase::Failed(error);
    }

    /// The binary's source is open; `patterns` are the regular expressions for it, if
    /// they have compiled.
    fn enter_bin(&mut self, patterns: Option<BinPatterns>)
        requires
            old(self).wf(),
            old(self)@.phase is OpeningBin,
            patterns is Some == name_compiles(old(self)@.pen.crate_name),
            patterns matches Some(p) ==> {
                &&& p.wf()
                &&& p.library@ == old(self)@.pen.crate_name
            },
        ensures
            final(self).wf(),
            final(self)@ == old(self)@.enter_bin(),
    {
        match patterns {
            Some(p) => {
                let mut frames: Vec<Frame> = Vec::new();
                frames.push(Frame::Bin);
                self.frames = frames;
                self.bin_patterns = Some(p);
                self.phase = Phase::Reading;
                proof {
                    assert(self@.frames == seq![FrameView::Bin]);
                }
            },
            None => self.fail(BundleError::BadPattern),
        }
    }

    fn enter_lib(&mut self)
        requires
            old(self).wf(),
            old(self)@.phase is OpeningLib,
        ensures
            final(self).wf(),
            final(self)@ == old(self)@.enter_lib(),
    {
        self.in_lib = true;
        self.frames.push(Frame::Lib);
        self.phase = Phase::Reading;
        proof {
            assert(self@.frames == old(self)@.frames.push(FrameView::Lib));
        }
    }

    /// Adds an import path to those of the expanded modules.
    fn skip(&mut self, import: String)
        requires
            old(self).wf(),
        ensures
            final(self).wf(),
            final(self)@ == (BundleState {
                skip_use: old(self)@.skip_use.insert(import@),
                ..old(self)@
            }),
    {
        let mut i: usize = 0;
        while i < self.skip_use.len()
            invariant
                *self == *old(self),
                self.wf(),
                i <= self.skip_use.len(),
                forall|k: int| 0 <= k < i ==> (#[trigger] self.skip_use[k])@ != import@,
            decreases self.skip_use.len() - i,
        {
            if self.skip_use[i] == import {
                proof {
                    assert(self@.skip_use.contains(self.skip_use[i as int]@));
                    assert(self@.skip_use.insert(import@) == self@.skip_use);
                }
                return ;
            }
            i = i + 1;
        }
        self.skip_use.push(import);
        proof {
            assert forall|s: Seq<char>|
                self.skipped().contains(s) == old(self).skipped().insert(import@).contains(s) by {
                if old(self).skipped().contains(s) {
                    let k = choose|k: int|
                        0 <= k < old(self).skip_use.len() && (#[trigger] old(self).skip_use[k])@
                            == s;
                    assert(self.skip_use[k]@ == s);
                }
                assert(self.skip_use[i as int]@ == import@);
                if self.skipped().contains(s) && s != import@ {
                    let k = choose|k: int|
                        0 <= k < self.skip_use.len() && (#[trigger] self.skip_use[k])@ == s;
                    assert(old(self).skip_use[k]@ == s);
                }
            }
            assert(self.skipped() == old(self).skipped().insert(import@));
        }
    }

    fn enter_mod(&mut self)
        requires
            old(self).wf(),
            old(self)@.phase is OpeningMod || old(self)@.phase is OpeningModDir,
        ensures
            final(self).wf(),
            final(self)@ == old(self)@.enter_mod(),
    {
        let mut opening: Option<ModRef> = None;
        std::mem::swap(&mut opening, &mut self.opening);
        self.phase = Phase::Reading;
        if let Some(m) = opening {
            let head = join("pub mod ", m.name.as_str(), " {\n");
            self.bundle_file.append(head.as_str());
            self.skip(m.import.clone());
            self.frames.push(Frame::Mod(m));
            proof {
                assert(self@.frames == old(self)@.frames.push(FrameView::Mod(m@)));
            }
        }
    }

    /// From the file that has the main() function, expands "extern crate <crate_name>"
    /// into lib.rs contents, and turns "use <crate_name>::" lines into imports from there.
    fn binrs(&mut self, raw: &str)
        requires
            old(self).wf(),
            old(self)@.phase is Reading,
            old(self)@.frames.last() is Bin,
        ensures
            final(self).wf(),
            final(self)@ == old(self)@.bin_line(drop_space(raw@)),
    {
        let line = trim_end(raw);
        if self.starts_inside() {
            self.write_line(line);
            return ;
        }
        if is_match(&self.warn_re, line) {
            self.pass_line(line);
            return ;
        }
        let patterns = self.bin_patterns.as_ref().unwrap();
        if is_match(&patterns.link, line) {
            let head = join("pub mod ", self._crate_name.as_str(), " {\n");
            self.pass_line(line);
            self.bundle_file.append(head.as_str());
            self.phase = Phase::OpeningLib;
            return ;
        }
        match first_group(&patterns.import, line, "submod") {
            Some(Some(submod)) => {
                let import = join("use self::", submod.as_str(), ";");
                self.write_line(import.as_str());
            },
            Some(None) => self.fail(BundleError::CaptureNotFound),
            None => self.write_line(line),
        }
    }

    /// A line of lib.rs or of a module: expands "pub mod <>;" lines.
    fn usemod(&mut self, line: &str)
        requires
            old(self).wf(),
            old(self)@.phase is Reading,
            !(old(self)@.frames.last() is Bin),
        ensures
            final(self).wf(),
            final(self)@ == old(self)@.lib_line(
                match old(self)@.frames.last() {
                    FrameView::Mod(m) => Some(m),
                    _ => None,
                },
                line@,
            ),
    {
        if self.starts_inside() {
            self.write_line(line);
            return ;
        }
        if is_match(&self.warn_re, line) {
            self.pass_line(line);
            return ;
        }
        match first_group(&self.mod_re, line, "m") {
            Some(Some(name)) => {
                self.pass_line(line);
                proof {
                    assert(self@.frames == old(self)@.frames);
                    assert(self.frames@.len() == self@.frames.len());
                    assert(self@.frames.last() == self.frames@.last()@);
                }
                if !same_text(name.as_str(), "tests") {
                    let opening = match &self.frames[self.frames.len() - 1] {
                        Frame::Mod(m) => m.child(name),
                        _ => ModRef::top(name),
                    };
                    self.opening = Some(opening);
                    self.phase = Phase::OpeningMod;
                }
            },
            Some(None) => self.fail(BundleError::CaptureNotFound),
            None => self.write_line(line),
        }
    }
}

impl<'a> Bundler<'a> {
    /// A line, as read, of the innermost open file.
    fn read_line(&mut self, raw: &str)
        requires
            old(self).wf(),
            old(self)@.phase is Reading,
        ensures
            final(self).wf(),
            final(self)@ == old(self)@.read_line(raw@),
    {
        proof {
            assert(self.frames@.len() == self@.frames.len());
            assert(self@.frames.last() == self.frames@.last()@);
        }
        match &self.frames[self.frames.len() - 1] {
            Frame::Bin => self.binrs(raw),
            Frame::Lib => self.usemod(trim_feed(raw)),
            Frame::Mod(_) => self.usemod(trim_end(raw)),
        }
    }

    /// The innermost open file is at its end.
    fn close(&mut self)
        requires
            old(self).wf(),
            old(self)@.phase is Reading,
        ensures
            final(self).wf(),
            final(self)@ == old(self)@.close(),
    {
        proof {
            assert(self.frames@.len() == self@.frames.len());
            assert(self@.frames.last() == self.frames@.last()@);
        }
        let top = self.frames.pop();
        proof {
            assert(self@.frames == old(self)@.frames.drop_last());
        }
        match top.unwrap() {
            Frame::Bin => {
                self.phase = Phase::Flushing;
            },
            Frame::Lib => {
                self.in_lib = false;
                self.bundle_file.append("}\n");
            },
            Frame::Mod(_) => self.bundle_file.append("}\n"),
        }
    }

    /// What the run asks for next.
    pub fn request(&self) -> (r: Request)
        requires
            self.wf(),
        ensures
            r@ == self@.asks(),
    {
        match self.phase {
            Phase::Canonicalizing => Request::Canonicalize(self.binrs_filename.to_owned()),
            Phase::Searching => Request::Probe,
            Phase::LoadingManifest => Request::LoadManifest,
            Phase::OpeningBin => Request::OpenBin(self.binrs_filename.to_owned()),
            Phase::OpeningLib => Request::OpenSource("src/lib.rs".to_owned()),
            Phase::OpeningMod => {
                let m = self.opening.as_ref().unwrap();
                Request::OpenSource(join("src/", m.path.as_str(), ".rs"))
            },
            Phase::OpeningModDir => {
                let m = self.opening.as_ref().unwrap();
                Request::OpenSource(join("src/", m.path.as_str(), "/mod.rs"))
            },
            Phase::Reading => Request::ReadLine,
            Phase::Flushing => Request::Flush(
                match self.bundle_filename {
                    Some(name) => {
                        let mut line = "rerun-if-changed=".to_owned();
                        line.append(name);
                        Some(line)
                    },
                    None => None,
                },
            ),
            Phase::Finished => Request::Finished,
            Phase::Failed(error) => Request::Failed(error),
        }
    }

    /// Takes the reply to what [`Bundler::request`] asks for, and goes on with the run up to
    /// the next request. A run that is finished or has failed stays as it is.
    pub fn run(&mut self, reply: Reply)
        requires
            old(self).wf(),
        ensures
            final(self).wf(),
            final(self)@ == old(self)@.step(reply@),
    {
        match (self.phase, reply) {
            (Phase::Finished, _) => {},
            (Phase::Failed(_), _) => {},
            (Phase::Canonicalizing, Reply::Done) => {
                self.phase = Phase::Searching;
            },
            (Phase::Canonicalizing, Reply::Failed) => self.fail(BundleError::Canonicalize),
            (Phase::Searching, Reply::Present) => {
                self.phase = Phase::LoadingManifest;
            },
            (Phase::Searching, Reply::Absent) => {},
            (Phase::Searching, Reply::Exhausted) => self.fail(BundleError::NoManifest),
            (Phase::LoadingManifest, Reply::Manifest(Some(name))) => {
                self._crate_name = crate_name_of(name.as_str());
                self.phase = Phase::OpeningBin;
            },
            (Phase::LoadingManifest, Reply::Manifest(None)) => self.fail(BundleError::NoCrateName),
            (Phase::LoadingManifest, Reply::Failed) => self.fail(BundleError::BadManifest),
            (Phase::OpeningBin, Reply::Done) => {
                let patterns = compile_bin_patterns(self._crate_name.as_str());
                self.enter_bin(patterns);
            },
            (Phase::OpeningBin, Reply::Failed) => self.fail(BundleError::OpenBin),
            (Phase::OpeningLib, Reply::Done) => self.enter_lib(),
            (Phase::OpeningLib, Reply::Failed) => self.fail(BundleError::OpenLib),
            (Phase::OpeningMod, Reply::Done) => self.enter_mod(),
            (Phase::OpeningMod, Reply::Failed) => {
                self.phase = Phase::OpeningModDir;
            },
            (Phase::OpeningModDir, Reply::Done) => self.enter_mod(),
            (Phase::OpeningModDir, Reply::Failed) => self.fail(BundleError::NoModFile),
            (Phase::Reading, Reply::Line(raw)) => self.read_line(raw.as_str()),
            (Phase::Reading, Reply::Eof) => self.close(),
            (Phase::Reading, Reply::Failed) => self.fail(BundleError::Read),
            (Phase::Flushing, Reply::Done) => {
                self.phase = Phase::Finished;
            },
            (Phase::Flushing, Reply::Failed) => self.fail(BundleError::Flush),
            _ => self.fail(BundleError::UnexpectedReply),
        }
    }
}

/// The state of a well-formed bundler is coherent.
pub proof fn law_well_formed_is_coherent(b: Bundler)
    requires
        b.wf(),
    ensures
        b@.is_coherent(),
{
}

/// The state of a bundler that has not begun.
pub open spec fn initial_state(
    binrs_filename: Seq<char>,
    bundle_filename: Option<Seq<char>>,
    bundle_file: Seq<char>,
) -> BundleState {
    BundleState {
        binrs_filename,
        bundle_filename,
        pen: Pen {
            bundle_file,
            crate_name: Seq::empty(),
            minify: false,
            in_lib: false,
            strip_comments: false,
            inside: Inside::Code,
            keep_block: false,
        },
        skip_use: Set::empty(),
        phase: Phase::Canonicalizing,
        frames: Seq::empty(),
        opening: None,
        library: None,
    }
}

} // verus!
