//! What a whole run writes.
//!
//! A run is driven by replies. Here the replies come from a fixed set of files, and
//! what the run makes of them is described at once: the source of the binary, with the
//! library expanded in it, and in that its modules.

use crate::pattern::name_compiles;
use crate::state::{
    child, declares, import_line, imports, links, mod_head, underscored, warns, BundleError,
    BundleState, FrameView, ModView, Pen, Phase, ReplyView, RequestView,
};
use crate::text::{drop_feed, drop_space};
use vstd::prelude::*;

verus! {

/// The lines of a file, as read, and whether it can be read to its end.
pub struct SourceText {
    pub lines: Seq<Seq<char>>,
    pub intact: bool,
}

impl SourceText {
    /// The file behind its first line.
    pub open spec fn rest(self) -> SourceText {
        SourceText { lines: self.lines.skip(1), ..self }
    }
}

/// All that the replies of a run depend on.
pub struct World {
    /// Whether the path of the binary's source can be made canonical.
    pub canonical: bool,
    /// Of each directory upwards, whether it holds a `Cargo.toml`.
    pub manifests: Seq<bool>,
    /// The name of the package, if there is one, if the manifest can be parsed.
    pub package: Option<Option<Seq<char>>>,
    /// The binary's source, if it can be opened.
    pub bin: Option<SourceText>,
    /// The files below the directory of the manifest that can be opened.
    pub sources: Map<Seq<char>, SourceText>,
    /// No file has a longer path.
    pub max_path: nat,
    /// Whether the bundle can be flushed.
    pub flushes: bool,
}

impl World {
    /// The file with this path.
    pub open spec fn source(self, path: Seq<char>) -> Option<SourceText> {
        if path.len() <= self.max_path && self.sources.contains_key(path) {
            Some(self.sources[path])
        } else {
            None
        }
    }

    /// The `<path>.rs` of a module.
    pub open spec fn mod_file(self, m: ModView) -> Option<SourceText> {
        self.source("src/"@ + m.path + ".rs"@)
    }

    /// The `<path>/mod.rs` of a module.
    pub open spec fn mod_dir_file(self, m: ModView) -> Option<SourceText> {
        self.source("src/"@ + m.path + "/mod.rs"@)
    }

    /// The source of a module.
    pub open spec fn mod_text(self, m: ModView) -> Option<SourceText> {
        match self.mod_file(m) {
            Some(text) => Some(text),
            None => self.mod_dir_file(m),
        }
    }
}

/// What can still be replied: the directories not looked at yet, and what is left of
/// the open files, the innermost last.
pub struct Left {
    pub dirs: Seq<bool>,
    pub texts: Seq<SourceText>,
}

impl World {
    /// The reply to a request, and what is left behind it.
    pub open spec fn reply(self, left: Left, request: RequestView) -> (ReplyView, Left) {
        let done = |b: bool|
            if b {
                ReplyView::Done
            } else {
                ReplyView::Failed
            };
        let opened = |text: Option<SourceText>|
            match text {
                Some(t) => (ReplyView::Done, Left { texts: left.texts.push(t), ..left }),
                None => (ReplyView::Failed, left),
            };
        match request {
            RequestView::Canonicalize(_) => (done(self.canonical), left),
            RequestView::Probe => if left.dirs.len() == 0 {
                (ReplyView::Exhausted, left)
            } else {
                (
                    if left.dirs[0] {
                        ReplyView::Present
                    } else {
                        ReplyView::Absent
                    },
                    Left { dirs: left.dirs.skip(1), ..left },
                )
            },
            RequestView::LoadManifest => (
                match self.package {
                    Some(name) => ReplyView::Manifest(name),
                    None => ReplyView::Failed,
                },
                left,
            ),
            RequestView::OpenBin(_) => opened(self.bin),
            RequestView::OpenSource(path) => opened(self.source(path)),
            RequestView::ReadLine => {
                let text = left.texts.last();
                let outer = left.texts.drop_last();
                if text.lines.len() > 0 {
                    (
                        ReplyView::Line(text.lines[0]),
                        Left { texts: outer.push(text.rest()), ..left },
                    )
                } else if text.intact {
                    (ReplyView::Eof, Left { texts: outer, ..left })
                } else {
                    (ReplyView::Failed, left)
                }
            },
            RequestView::Flush(_) => (done(self.flushes), left),
            RequestView::Finished => (ReplyView::Done, left),
            RequestView::Failed(_) => (ReplyView::Done, left),
        }
    }

    /// The run and what is left, one reply later.
    pub open spec fn advance(self, s: BundleState, left: Left) -> (BundleState, Left) {
        let (reply, next) = self.reply(left, s.asks());
        (s.step(reply), next)
    }

    /// The run and what is left, `n` replies later.
    pub open spec fn after(self, s: BundleState, left: Left, n: nat) -> (BundleState, Left)
        decreases n,
    {
        if n == 0 {
            (s, left)
        } else {
            let (t, next) = self.advance(s, left);
            self.after(t, next, (n - 1) as nat)
        }
    }
}

/// How far a run has come: what it has written, which modules it has expanded, in order,
/// the error that it has ended with, if it has, and the number of replies so far.
pub struct Draft {
    pub pen: Pen,
    pub skip_use: Set<Seq<char>>,
    pub modules: Seq<ModView>,
    pub error: Option<BundleError>,
    pub replies: nat,
}

impl Draft {
    /// One reply later, the pen has gone on.
    pub open spec fn with_pen(self, pen: Pen) -> Draft {
        Draft { pen, replies: self.replies + 1, ..self }
    }

    /// One reply later, nothing has changed.
    pub open spec fn silent(self) -> Draft {
        self.with_pen(self.pen)
    }

    /// One reply later, the run has failed.
    pub open spec fn failed(self, error: BundleError) -> Draft {
        Draft { error: Some(error), ..self.silent() }
    }

    /// One reply later, the source of a module is open.
    pub open spec fn enter_mod(self, m: ModView) -> Draft {
        Draft {
            skip_use: self.skip_use.insert(m.import),
            modules: self.modules.push(m),
            ..self.with_pen(self.pen.push(mod_head(m.name)))
        }
    }

    /// One reply later, unless the run has failed, the source of a module is at its end.
    pub open spec fn leave_mod(self) -> Draft {
        if self.error is Some {
            self
        } else {
            self.with_pen(self.pen.push("}\n"@))
        }
    }

    /// One reply later, unless the run has failed, the library's source is at its end.
    pub open spec fn leave_lib(self) -> Draft {
        if self.error is Some {
            self
        } else {
            self.with_pen((Pen { in_lib: false, ..self.pen }).push("}\n"@))
        }
    }
}

/// A line of the library's root, or of a module, without what is cut off at its end.
pub open spec fn lib_text(parent: Option<ModView>, raw: Seq<char>) -> Seq<char> {
    if parent is Some {
        drop_space(raw)
    } else {
        drop_feed(raw)
    }
}

/// How much longer the path of a module below `parent` can get.
pub open spec fn path_room(world: World, parent: Option<ModView>) -> nat {
    match parent {
        None => world.max_path + 1,
        Some(m) => if m.path.len() <= world.max_path {
            (world.max_path - m.path.len()) as nat
        } else {
            0
        },
    }
}

/// A module's source is opened, which is looked for in two places.
pub open spec fn mod_opened(world: World, d: Draft, m: ModView) -> Draft {
    if world.mod_file(m) is Some {
        d.enter_mod(m)
    } else if world.mod_dir_file(m) is Some {
        d.silent().enter_mod(m)
    } else {
        d.silent().failed(BundleError::NoModFile)
    }
}

/// The rest of `src/lib.rs`, or of the module `parent`, up to its end. A module that is
/// declared in it is expanded in the place of its declaration.
pub open spec fn lib_lines(
    world: World,
    d: Draft,
    parent: Option<ModView>,
    text: SourceText,
) -> Draft
    decreases path_room(world, parent), text.lines.len(),
{
    if d.error is Some {
        d
    } else if text.lines.len() == 0 {
        if text.intact {
            d
        } else {
            d.failed(BundleError::Read)
        }
    } else {
        let line = lib_text(parent, text.lines[0]);
        let passed = d.with_pen(d.pen.pass_line(line));
        let written = d.with_pen(d.pen.write_line(line));
        let next = if d.pen.starts_inside() {
            written
        } else if warns(line) {
            passed
        } else {
            match declares(line) {
                None => written,
                Some(None) => d.failed(BundleError::CaptureNotFound),
                Some(Some(name)) => if name == "tests"@ {
                    passed
                } else {
                    let m = child(parent, name);
                    proof {
                        reveal_strlit("/");
                    }
                    match world.mod_text(m) {
                        Some(t) => lib_lines(
                            world,
                            mod_opened(world, passed, m),
                            Some(m),
                            t,
                        ).leave_mod(),
                        None => mod_opened(world, passed, m),
                    }
                },
            }
        };
        lib_lines(world, next, parent, text.rest())
    }
}

/// A module: its head, its source, in which further modules are expanded, and its end.
pub open spec fn expanded_mod(world: World, d: Draft, m: ModView) -> Draft {
    match world.mod_text(m) {
        Some(t) => lib_lines(world, mod_opened(world, d, m), Some(m), t).leave_mod(),
        None => mod_opened(world, d, m),
    }
}

/// The library: `src/lib.rs` and its end.
pub open spec fn expanded_lib(world: World, d: Draft) -> Draft {
    match world.source("src/lib.rs"@) {
        Some(t) => lib_lines(
            world,
            d.with_pen(Pen { in_lib: true, ..d.pen }),
            None,
            t,
        ).leave_lib(),
        None => d.failed(BundleError::OpenLib),
    }
}

/// The rest of the binary's source up to its end. The library is expanded in the place of
/// the line that pulls it in.
pub open spec fn bin_lines(world: World, d: Draft, library: Seq<char>, text: SourceText) -> Draft
    decreases text.lines.len(),
{
    if d.error is Some {
        d
    } else if text.lines.len() == 0 {
        if text.intact {
            d
        } else {
            d.failed(BundleError::Read)
        }
    } else {
        let line = drop_space(text.lines[0]);
        let passed = d.pen.pass_line(line);
        let written = d.with_pen(d.pen.write_line(line));
        let next = if d.pen.starts_inside() {
            written
        } else if warns(line) {
            d.with_pen(passed)
        } else if links(library, line) {
            expanded_lib(world, d.with_pen(passed.push(mod_head(d.pen.crate_name))))
        } else {
            match imports(library, line) {
                Some(Some(submod)) => d.with_pen(d.pen.write_line(import_line(submod))),
                Some(None) => d.failed(BundleError::CaptureNotFound),
                None => written,
            }
        };
        bin_lines(world, next, library, text.rest())
    }
}

/// The flushing of the bundle, unless the run has failed.
pub open spec fn flushed(world: World, d: Draft) -> Draft {
    if d.error is Some {
        d
    } else if world.flushes {
        d.silent().silent()
    } else {
        d.silent().failed(BundleError::Flush)
    }
}

/// The run from the opening of the binary's source on.
pub open spec fn expanded_bin(world: World, d: Draft) -> Draft {
    match world.bin {
        None => d.failed(BundleError::OpenBin),
        Some(text) => if name_compiles(d.pen.crate_name) {
            flushed(world, bin_lines(world, d.silent(), d.pen.crate_name, text))
        } else {
            d.failed(BundleError::BadPattern)
        },
    }
}

/// The run from the loading of the manifest on.
pub open spec fn from_manifest(world: World, d: Draft) -> Draft {
    match world.package {
        None => d.failed(BundleError::BadManifest),
        Some(None) => d.failed(BundleError::NoCrateName),
        Some(Some(name)) => expanded_bin(
            world,
            d.with_pen(Pen { crate_name: underscored(name), ..d.pen }),
        ),
    }
}

/// The run from the search for the manifest on.
pub open spec fn from_search(world: World, d: Draft, dirs: Seq<bool>) -> Draft
    decreases dirs.len(),
{
    if dirs.len() == 0 {
        d.failed(BundleError::NoManifest)
    } else if dirs[0] {
        from_manifest(world, d.silent())
    } else {
        from_search(world, d.silent(), dirs.skip(1))
    }
}

/// A run that has come this far, `n` replies after it began.
pub open spec fn draft_of(s: BundleState, n: nat) -> Draft {
    Draft { pen: s.pen, skip_use: s.skip_use, modules: Seq::empty(), error: None, replies: n }
}

/// A whole run from this state on.
pub open spec fn bundled(world: World, start: BundleState) -> Draft {
    if world.canonical {
        from_search(world, draft_of(start, 0).silent(), world.manifests)
    } else {
        draft_of(start, 0).failed(BundleError::Canonicalize)
    }
}

/// Nothing is asked for any more.
pub open spec fn is_over(s: BundleState) -> bool {
    s.phase is Finished || s.phase is Failed
}

/// There is something left of every open file.
pub open spec fn fits(s: BundleState, left: Left) -> bool {
    s.frames.len() == left.texts.len()
}

/// A run that stands at `s` with `d0` done comes as far as `d`: it has failed with the
/// error of `d`, or it stands at `end`.
pub open spec fn comes_to(
    world: World,
    s: BundleState,
    left: Left,
    d0: Draft,
    d: Draft,
    end: BundleState,
    end_left: Left,
) -> bool {
    let (t, next) = world.after(s, left, (d.replies - d0.replies) as nat);
    &&& d0.replies <= d.replies
    &&& t.pen == d.pen
    &&& t.skip_use == d.skip_use
    &&& match d.error {
        Some(error) => t.phase == Phase::Failed(error),
        None => t == end && next == end_left,
    }
}

/// The draft is that of a run that stands at `s`.
pub open spec fn matches_state(d: Draft, s: BundleState) -> bool {
    d.error is None && d.pen == s.pen && d.skip_use == s.skip_use
}

/// The state with what a draft has written and expanded.
pub open spec fn with_draft(s: BundleState, d: Draft) -> BundleState {
    BundleState { pen: d.pen, skip_use: d.skip_use, ..s }
}

/// What is left when the innermost open file is at its end.
pub open spec fn at_end(left: Left) -> Left {
    let last = SourceText { lines: Seq::empty(), intact: true };
    Left { texts: left.texts.drop_last().push(last), ..left }
}

proof fn lemma_after_step(world: World, s: BundleState, left: Left, n: nat)
    requires
        n > 0,
    ensures
        ({
            let (t, next) = world.advance(s, left);
            world.after(s, left, n) == world.after(t, next, (n - 1) as nat)
        }),
{
}

proof fn lemma_after_sum(world: World, s: BundleState, left: Left, a: nat, b: nat)
    ensures
        ({
            let (t, next) = world.after(s, left, a);
            world.after(s, left, a + b) == world.after(t, next, b)
        }),
    decreases a,
{
    if a > 0 {
        let (t, next) = world.advance(s, left);
        lemma_after_sum(world, t, next, (a - 1) as nat, b);
    }
}

/// One reply, and then the rest.
proof fn lemma_comes_by_step(
    world: World,
    s: BundleState,
    left: Left,
    d0: Draft,
    d1: Draft,
    d: Draft,
    end: BundleState,
    end_left: Left,
)
    requires
        d1.replies == d0.replies + 1,
        ({
            let (t, next) = world.advance(s, left);
            comes_to(world, t, next, d1, d, end, end_left)
        }),
    ensures
        comes_to(world, s, left, d0, d, end, end_left),
{
    lemma_after_step(world, s, left, (d.replies - d0.replies) as nat);
}

/// Some replies, and then the rest.
proof fn lemma_comes_by_part(
    world: World,
    s: BundleState,
    left: Left,
    d0: Draft,
    mid: BundleState,
    mid_left: Left,
    d1: Draft,
    d: Draft,
    end: BundleState,
    end_left: Left,
)
    requires
        comes_to(world, s, left, d0, d1, mid, mid_left),
        d1.error is None,
        comes_to(world, mid, mid_left, d1, d, end, end_left),
    ensures
        comes_to(world, s, left, d0, d, end, end_left),
{
    lemma_after_sum(
        world,
        s,
        left,
        (d1.replies - d0.replies) as nat,
        (d.replies - d1.replies) as nat,
    );
}

/// A module is opened in one reply or two.
proof fn lemma_mod_opened(world: World, s: BundleState, left: Left, d: Draft)
    requires
        matches_state(d, s),
        s.phase is OpeningMod,
        s.opening is Some,
    ensures
        ({
            let m = s.opening->0;
            let e = mod_opened(world, d, m);
            comes_to(
                world,
                s,
                left,
                d,
                e,
                BundleState {
                    phase: Phase::Reading,
                    frames: s.frames.push(FrameView::Mod(m)),
                    opening: None,
                    ..with_draft(s, e)
                },
                Left { texts: left.texts.push(world.mod_text(m)->0), ..left },
            )
        }),
{
    let m = s.opening->0;
    let (t, next) = world.advance(s, left);
    lemma_after_step(world, s, left, 1);
    lemma_after_step(world, s, left, 2);
    lemma_after_step(world, t, next, 1);
}

/// The module that an open file is the source of, if it is.
pub open spec fn module_of(frame: FrameView) -> Option<ModView> {
    match frame {
        FrameView::Mod(m) => Some(m),
        _ => None,
    }
}

/// A run does with the rest of `src/lib.rs`, or of a module, what [`lib_lines`] says.
#[verifier::rlimit(40)]
proof fn lemma_lib_lines(world: World, s: BundleState, left: Left, d: Draft)
    requires
        matches_state(d, s),
        s.phase is Reading,
        s.opening is None,
        fits(s, left),
        s.frames.len() > 0,
        !(s.frames.last() is Bin),
    ensures
        ({
            let e = lib_lines(world, d, module_of(s.frames.last()), left.texts.last());
            comes_to(world, s, left, d, e, with_draft(s, e), at_end(left))
        }),
    decreases path_room(world, module_of(s.frames.last())), left.texts.last().lines.len(),
{
    let parent = module_of(s.frames.last());
    let text = left.texts.last();
    let e = lib_lines(world, d, parent, text);
    let (t, next) = world.advance(s, left);
    let end = with_draft(s, e);
    let end_left = at_end(left);
    if text.lines.len() == 0 {
        if text.intact {
            assert(text.lines == Seq::<Seq<char>>::empty());
            assert(left.texts == end_left.texts);
            assert(comes_to(world, s, left, d, e, end, end_left));
        } else {
            lemma_after_step(world, s, left, 1);
            assert(comes_to(world, s, left, d, e, end, end_left));
        }
    } else {
        let line = lib_text(parent, text.lines[0]);
        let passed = d.with_pen(d.pen.pass_line(line));
        assert(next.texts.last() == text.rest());
        assert(at_end(next).texts == end_left.texts);
        if t.phase is OpeningMod {
            let m = t.opening->0;
            let name = declares(line)->0->0;
            assert(m == child(parent, name));
            let done = expanded_mod(world, passed, m);
            assert(e == lib_lines(world, done, parent, text.rest()));
            if world.mod_text(m) is Some {
                reveal_strlit("/");
                lemma_expanded_mod(world, t, next, passed);
            } else {
                lemma_mod_opened(world, t, next, passed);
            }
            if done.error is None {
                let t1 = with_draft(s, done);
                lemma_lib_lines(world, t1, next, done);
                lemma_comes_by_part(
                    world,
                    t,
                    next,
                    passed,
                    t1,
                    next,
                    done,
                    e,
                    end,
                    end_left,
                );
            }
            lemma_comes_by_step(world, s, left, d, passed, e, end, end_left);
        } else if t.phase is Failed {
            lemma_after_step(world, s, left, 1);
            let f = d.failed(BundleError::CaptureNotFound);
            assert(lib_lines(world, f, parent, text.rest()) == f);
            assert(e == f);
            assert(comes_to(world, s, left, d, e, end, end_left));
        } else {
            let d1 = d.with_pen(t.pen);
            assert(e == lib_lines(world, d1, parent, text.rest()));
            lemma_lib_lines(world, t, next, d1);
            lemma_comes_by_step(world, s, left, d, d1, e, end, end_left);
        }
    }
}

/// The state of a run that stands at `s` when the module that is opened there has been
/// expanded.
pub open spec fn behind_mod(s: BundleState, d: Draft) -> BundleState {
    BundleState { phase: Phase::Reading, opening: None, ..with_draft(s, d) }
}

/// A run does with a module that has a source what [`expanded_mod`] says.
proof fn lemma_expanded_mod(world: World, s: BundleState, left: Left, d: Draft)
    requires
        matches_state(d, s),
        s.phase is OpeningMod,
        s.opening is Some,
        world.mod_text(s.opening->0) is Some,
        fits(s, left),
    ensures
        ({
            let e = expanded_mod(world, d, s.opening->0);
            comes_to(world, s, left, d, e, behind_mod(s, e), left)
        }),
    decreases
        path_room(world, Some(s.opening->0)),
        world.mod_text(s.opening->0)->0.lines.len() + 1,
{
    let m = s.opening->0;
    let inner = world.mod_text(m)->0;
    let opened = mod_opened(world, d, m);
    let t1 = BundleState {
        phase: Phase::Reading,
        frames: s.frames.push(FrameView::Mod(m)),
        opening: None,
        ..with_draft(s, opened)
    };
    let left1 = Left { texts: left.texts.push(inner), ..left };
    lemma_mod_opened(world, s, left, d);
    lemma_lib_lines(world, t1, left1, opened);
    let done = lib_lines(world, opened, Some(m), inner);
    let t2 = with_draft(t1, done);
    let left2 = at_end(left1);
    lemma_comes_by_part(world, s, left, d, t1, left1, opened, done, t2, left2);
    if done.error is None {
        let e = done.leave_mod();
        let (t3, left3) = world.advance(t2, left2);
        assert(t3.frames == s.frames);
        assert(left3.texts == left.texts);
        lemma_after_step(world, t2, left2, 1);
        lemma_comes_by_part(world, s, left, d, t2, left2, done, e, t3, left3);
    }
}

/// A run does with the library what [`expanded_lib`] says.
proof fn lemma_expanded_lib(world: World, s: BundleState, left: Left, d: Draft)
    requires
        matches_state(d, s),
        s.phase is OpeningLib,
        s.opening is None,
        fits(s, left),
    ensures
        ({
            let e = expanded_lib(world, d);
            comes_to(world, s, left, d, e, behind_mod(s, e), left)
        }),
{
    let (t, next) = world.advance(s, left);
    lemma_after_step(world, s, left, 1);
    if let Some(text) = world.source("src/lib.rs"@) {
        let d1 = d.with_pen(Pen { in_lib: true, ..d.pen });
        let done = lib_lines(world, d1, None, text);
        lemma_lib_lines(world, t, next, d1);
        let t2 = with_draft(t, done);
        let left2 = at_end(next);
        lemma_comes_by_step(world, s, left, d, d1, done, t2, left2);
        if done.error is None {
            let e = done.leave_lib();
            let (t3, left3) = world.advance(t2, left2);
            assert(t3.frames == s.frames);
            assert(left3.texts == left.texts);
            lemma_after_step(world, t2, left2, 1);
            lemma_comes_by_part(world, s, left, d, t2, left2, done, e, t3, left3);
        }
    }
}

/// A run does with the rest of the binary's source what [`bin_lines`] says.
#[verifier::rlimit(40)]
proof fn lemma_bin_lines(world: World, s: BundleState, left: Left, d: Draft)
    requires
        matches_state(d, s),
        s.phase is Reading,
        s.opening is None,
        fits(s, left),
        s.frames.len() > 0,
        s.frames.last() is Bin,
    ensures
        ({
            let e = bin_lines(world, d, s.library->0, left.texts.last());
            comes_to(world, s, left, d, e, with_draft(s, e), at_end(left))
        }),
    decreases left.texts.last().lines.len(),
{
    let library = s.library->0;
    let text = left.texts.last();
    let e = bin_lines(world, d, library, text);
    let (t, next) = world.advance(s, left);
    let end = with_draft(s, e);
    let end_left = at_end(left);
    if text.lines.len() == 0 {
        if text.intact {
            assert(text.lines == Seq::<Seq<char>>::empty());
            assert(left.texts == end_left.texts);
        } else {
            lemma_after_step(world, s, left, 1);
        }
    } else {
        let line = drop_space(text.lines[0]);
        assert(next.texts.last() == text.rest());
        assert(at_end(next).texts == end_left.texts);
        if t.phase is OpeningLib {
            let d1 = d.with_pen(t.pen);
            let done = expanded_lib(world, d1);
            assert(e == bin_lines(world, done, library, text.rest()));
            lemma_expanded_lib(world, t, next, d1);
            if done.error is None {
                let t1 = with_draft(s, done);
                lemma_bin_lines(world, t1, next, done);
                lemma_comes_by_part(world, t, next, d1, t1, next, done, e, end, end_left);
            }
            lemma_comes_by_step(world, s, left, d, d1, e, end, end_left);
        } else if t.phase is Failed {
            lemma_after_step(world, s, left, 1);
            let f = d.failed(BundleError::CaptureNotFound);
            assert(bin_lines(world, f, library, text.rest()) == f);
        } else {
            let d1 = d.with_pen(t.pen);
            assert(e == bin_lines(world, d1, library, text.rest()));
            lemma_bin_lines(world, t, next, d1);
            lemma_comes_by_step(world, s, left, d, d1, e, end, end_left);
        }
    }
}

/// The run is finished, or it has failed with the error of the draft.
pub open spec fn ends_with(world: World, s: BundleState, left: Left, d0: Draft, d: Draft) -> bool {
    let (t, _) = world.after(s, left, (d.replies - d0.replies) as nat);
    &&& d0.replies <= d.replies
    &&& t.pen == d.pen
    &&& t.skip_use == d.skip_use
    &&& t.phase == (match d.error {
        Some(error) => Phase::Failed(error),
        None => Phase::Finished,
    })
}

proof fn lemma_ends_by_step(
    world: World,
    s: BundleState,
    left: Left,
    d0: Draft,
    d1: Draft,
    d: Draft,
)
    requires
        d1.replies == d0.replies + 1,
        ({
            let (t, next) = world.advance(s, left);
            ends_with(world, t, next, d1, d)
        }),
    ensures
        ends_with(world, s, left, d0, d),
{
    lemma_after_step(world, s, left, (d.replies - d0.replies) as nat);
}

proof fn lemma_ends_by_part(
    world: World,
    s: BundleState,
    left: Left,
    d0: Draft,
    mid: BundleState,
    mid_left: Left,
    d1: Draft,
    d: Draft,
)
    requires
        comes_to(world, s, left, d0, d1, mid, mid_left),
        d1.error is None,
        ends_with(world, mid, mid_left, d1, d),
    ensures
        ends_with(world, s, left, d0, d),
{
    lemma_after_sum(
        world,
        s,
        left,
        (d1.replies - d0.replies) as nat,
        (d.replies - d1.replies) as nat,
    );
}

/// Behind the end of the binary's source the bundle is flushed.
proof fn lemma_flushed(world: World, s: BundleState, left: Left, d: Draft)
    requires
        matches_state(d, s),
        s.phase is Reading,
        s.frames == seq![FrameView::Bin],
        left.texts.len() > 0,
        left.texts.last().lines.len() == 0,
        left.texts.last().intact,
    ensures
        ends_with(world, s, left, d, flushed(world, d)),
{
    let (t, next) = world.advance(s, left);
    lemma_after_step(world, s, left, 2);
    lemma_after_step(world, t, next, 1);
}

/// A run does with the binary's source what [`expanded_bin`] says.
proof fn lemma_expanded_bin(world: World, s: BundleState, left: Left, d: Draft)
    requires
        matches_state(d, s),
        s.phase is OpeningBin,
        s.opening is None,
        s.frames.len() == 0,
        fits(s, left),
    ensures
        ends_with(world, s, left, d, expanded_bin(world, d)),
{
    let (t, next) = world.advance(s, left);
    let e = expanded_bin(world, d);
    lemma_after_step(world, s, left, 1);
    if world.bin is Some && name_compiles(d.pen.crate_name) {
        let d1 = d.silent();
        let done = bin_lines(world, d1, d.pen.crate_name, world.bin->0);
        let t1 = with_draft(t, done);
        let left1 = at_end(next);
        lemma_bin_lines(world, t, next, d1);
        if done.error is None {
            lemma_flushed(world, t1, left1, done);
            lemma_ends_by_part(world, t, next, d1, t1, left1, done, e);
        }
        lemma_ends_by_step(world, s, left, d, d1, e);
    }
}

proof fn lemma_from_search(world: World, s: BundleState, left: Left, d: Draft)
    requires
        matches_state(d, s),
        s.phase is Searching,
        s.opening is None,
        s.frames.len() == 0,
        fits(s, left),
    ensures
        ends_with(world, s, left, d, from_search(world, d, left.dirs)),
    decreases left.dirs.len(),
{
    let (t, next) = world.advance(s, left);
    let e = from_search(world, d, left.dirs);
    let d1 = d.silent();
    lemma_after_step(world, s, left, 1);
    if left.dirs.len() == 0 {
    } else if left.dirs[0] {
        lemma_after_step(world, t, next, 1);
        if let Some(Some(name)) = world.package {
            let (t1, next1) = world.advance(t, next);
            let d2 = d1.with_pen(t1.pen);
            lemma_expanded_bin(world, t1, next1, d2);
            lemma_ends_by_step(world, t, next, d1, d2, e);
        }
        lemma_ends_by_step(world, s, left, d, d1, e);
    } else {
        lemma_from_search(world, t, next, d1);
        lemma_ends_by_step(world, s, left, d, d1, e);
    }
}

/// A run ends, after a number of replies that the files decide. It has then written the
/// bundle: the binary's source, in which the line that pulls the library in is replaced by
/// the library, in which each declaration of a module is replaced by that module. It has
/// failed with the error that it came upon, if any; else it is finished.
pub proof fn law_run_writes_the_bundle(world: World, start: BundleState)
    requires
        start.is_coherent(),
        start.phase is Canonicalizing,
    ensures
        ({
            let d = bundled(world, start);
            let left = Left { dirs: world.manifests, texts: Seq::empty() };
            let (end, _) = world.after(start, left, d.replies);
            &&& end.pen == d.pen
            &&& end.skip_use == d.skip_use
            &&& end.phase == (match d.error {
                None => Phase::Finished,
                Some(error) => Phase::Failed(error),
            })
        }),
{
    let left = Left { dirs: world.manifests, texts: Seq::empty() };
    let (t, next) = world.advance(start, left);
    let d0 = draft_of(start, 0);
    let d = bundled(world, start);
    lemma_after_step(world, start, left, 1);
    if world.canonical {
        lemma_from_search(world, t, next, d0.silent());
        lemma_ends_by_step(world, start, left, d0, d0.silent(), d);
    }
}

/// The settings of a pen are those of another.
pub open spec fn same_settings(p: Pen, q: Pen) -> bool {
    &&& p.crate_name == q.crate_name
    &&& p.minify == q.minify
    &&& p.in_lib == q.in_lib
    &&& p.strip_comments == q.strip_comments
}

/// The import paths of some modules.
pub open spec fn imports_of(modules: Seq<ModView>) -> Set<Seq<char>> {
    Set::new(
        |import: Seq<char>|
            exists|k: int| 0 <= k < modules.len() && (#[trigger] modules[k]).import == import,
    )
}

/// A module lies below another, or anywhere in the library, by its import path.
pub open spec fn is_below(parent: Option<ModView>, m: ModView) -> bool {
    match parent {
        None => true,
        Some(p) => (p.import + "::"@).is_prefix_of(m.import),
    }
}

/// From `d` to `e` a run has only appended to the bundle and expanded modules below
/// `parent`, whose import paths have come to be listed.
pub open spec fn grows(d: Draft, e: Draft, parent: Option<ModView>) -> bool {
    let more = e.modules.skip(d.modules.len() as int);
    &&& d.pen.bundle_file.is_prefix_of(e.pen.bundle_file)
    &&& same_settings(d.pen, e.pen)
    &&& d.modules.is_prefix_of(e.modules)
    &&& forall|k: int| 0 <= k < more.len() ==> is_below(parent, #[trigger] more[k])
    &&& e.skip_use == d.skip_use.union(imports_of(more))
}

proof fn lemma_imports_of(a: Seq<ModView>, b: Seq<ModView>)
    ensures
        imports_of(a + b) == imports_of(a).union(imports_of(b)),
{
    assert forall|import: Seq<char>| imports_of(a + b).contains(import) == imports_of(a).union(
        imports_of(b),
    ).contains(import) by {
        if imports_of(a).contains(import) {
            let k = choose|k: int| 0 <= k < a.len() && (#[trigger] a[k]).import == import;
            assert((a + b)[k].import == import);
        }
        if imports_of(b).contains(import) {
            let k = choose|k: int| 0 <= k < b.len() && (#[trigger] b[k]).import == import;
            assert((a + b)[a.len() + k].import == import);
        }
        if imports_of(a + b).contains(import) {
            let k = choose|k: int|
                0 <= k < (a + b).len() && (#[trigger] (a + b)[k]).import == import;
            if k < a.len() {
                assert(a[k].import == import);
            } else {
                assert(b[k - a.len()].import == import);
            }
        }
    }
    assert(imports_of(a + b) == imports_of(a).union(imports_of(b)));
}

proof fn lemma_grows_in_parts(d: Draft, e: Draft, f: Draft, parent: Option<ModView>)
    requires
        grows(d, e, parent),
        grows(e, f, parent),
    ensures
        grows(d, f, parent),
{
    let a = e.modules.skip(d.modules.len() as int);
    let b = f.modules.skip(e.modules.len() as int);
    let more = f.modules.skip(d.modules.len() as int);
    assert(e.modules == d.modules + a);
    assert(f.modules == e.modules + b);
    assert(more == a + b);
    assert(d.modules.is_prefix_of(f.modules));
    lemma_imports_of(a, b);
    assert(f.skip_use == d.skip_use.union(imports_of(more)));
    assert(d.pen.bundle_file.is_prefix_of(f.pen.bundle_file)) by {
        let n = d.pen.bundle_file.len() as int;
        assert(e.pen.bundle_file.take(n) == f.pen.bundle_file.take(n));
    }
    assert forall|k: int| 0 <= k < more.len() implies is_below(parent, #[trigger] more[k]) by {
        if k < a.len() {
            assert(more[k] == a[k]);
        } else {
            assert(more[k] == b[k - a.len()]);
        }
    }
}

/// A pen only appends, and keeps its settings.
proof fn lemma_writing_appends(pen: Pen, line: Seq<char>)
    ensures
        pen.bundle_file.is_prefix_of(pen.write_line(line).bundle_file),
        same_settings(pen, pen.write_line(line)),
        pen.bundle_file == pen.pass_line(line).bundle_file,
        same_settings(pen, pen.pass_line(line)),
{
    let old_text = pen.bundle_file;
    assert(forall|text: Seq<char>| old_text.is_prefix_of(#[trigger] (old_text + text)));
}

/// A reply that only writes.
proof fn lemma_grows_by_writing(d: Draft, e: Draft, parent: Option<ModView>)
    requires
        d.pen.bundle_file.is_prefix_of(e.pen.bundle_file),
        same_settings(d.pen, e.pen),
        e.modules == d.modules,
        e.skip_use == d.skip_use,
    ensures
        grows(d, e, parent),
{
    let more = e.modules.skip(d.modules.len() as int);
    assert(more == Seq::<ModView>::empty());
    assert(imports_of(more) == Set::<Seq<char>>::empty());
    assert(d.skip_use.union(imports_of(more)) == d.skip_use);
}

proof fn lemma_mod_opened_grows(world: World, d: Draft, parent: Option<ModView>, m: ModView)
    requires
        is_below(parent, m),
    ensures
        grows(d, mod_opened(world, d, m), parent),
{
    let e = mod_opened(world, d, m);
    if world.mod_text(m) is Some {
        let more = e.modules.skip(d.modules.len() as int);
        assert(more == seq![m]);
        assert(d.modules.is_prefix_of(e.modules));
        assert(imports_of(more) == Set::<Seq<char>>::empty().insert(m.import)) by {
            assert(more[0].import == m.import);
        }
        assert(e.skip_use == d.skip_use.union(imports_of(more)));
    } else {
        lemma_grows_by_writing(d, e, parent);
    }
}

/// What grows below a module grows below its parent.
proof fn lemma_grows_above(d: Draft, e: Draft, parent: Option<ModView>, name: Seq<char>)
    requires
        grows(d, e, Some(child(parent, name))),
    ensures
        grows(d, e, parent),
{
    let more = e.modules.skip(d.modules.len() as int);
    let m = child(parent, name);
    assert forall|k: int| 0 <= k < more.len() implies is_below(parent, #[trigger] more[k]) by {
        assert(is_below(Some(m), more[k]));
        if let Some(p) = parent {
            let head = p.import + "::"@;
            let n = head.len() as int;
            assert(m.import.take(n) == head);
            assert((m.import + "::"@).take(n) == head);
            assert(more[k].import.take(n) == (m.import + "::"@).take(n));
            assert(head.is_prefix_of(more[k].import));
        }
    }
}

proof fn lemma_lib_lines_grow(
    world: World,
    d: Draft,
    parent: Option<ModView>,
    text: SourceText,
)
    ensures
        grows(d, lib_lines(world, d, parent, text), parent),
    decreases path_room(world, parent), text.lines.len(),
{
    if d.error is Some || text.lines.len() == 0 {
        lemma_grows_by_writing(d, lib_lines(world, d, parent, text), parent);
    } else {
        let line = lib_text(parent, text.lines[0]);
        let passed = d.with_pen(d.pen.pass_line(line));
        let written = d.with_pen(d.pen.write_line(line));
        let failed = d.failed(BundleError::CaptureNotFound);
        lemma_writing_appends(d.pen, line);
        lemma_grows_by_writing(d, passed, parent);
        lemma_grows_by_writing(d, written, parent);
        lemma_grows_by_writing(d, failed, parent);
        let next = if d.pen.starts_inside() {
            written
        } else if warns(line) {
            passed
        } else {
            match declares(line) {
                None => written,
                Some(None) => failed,
                Some(Some(name)) => if name == "tests"@ {
                    passed
                } else {
                    expanded_mod(world, passed, child(parent, name))
                },
            }
        };
        if next != passed && next != written && next != failed {
            let name = declares(line)->0->0;
            let m = child(parent, name);
            let opened = mod_opened(world, passed, m);
            assert(is_below(parent, m)) by {
                if let Some(p) = parent {
                    assert(m.import.take((p.import + "::"@).len() as int) == p.import + "::"@);
                }
            }
            lemma_mod_opened_grows(world, passed, parent, m);
            lemma_grows_in_parts(d, passed, opened, parent);
            if let Some(t) = world.mod_text(m) {
                reveal_strlit("/");
                let done = lib_lines(world, opened, Some(m), t);
                lemma_lib_lines_grow(world, opened, Some(m), t);
                lemma_grows_above(opened, done, parent, name);
                lemma_grows_in_parts(d, opened, done, parent);
                lemma_grows_by_writing(done, done.leave_mod(), parent);
                lemma_grows_in_parts(d, done, next, parent);
            }
        }
        lemma_lib_lines_grow(world, next, parent, text.rest());
        assert(lib_lines(world, d, parent, text) == lib_lines(world, next, parent, text.rest()));
        lemma_grows_in_parts(d, next, lib_lines(world, next, parent, text.rest()), parent);
    }
}

/// The new text is the old one with `head` behind it, then anything, then `tail`.
pub open spec fn appends_between(
    old_text: Seq<char>,
    new_text: Seq<char>,
    head: Seq<char>,
    tail: Seq<char>,
) -> bool {
    &&& old_text.len() + head.len() + tail.len() <= new_text.len()
    &&& (old_text + head).is_prefix_of(new_text)
    &&& tail.is_suffix_of(new_text)
}

/// A module that is expanded without an error is written between `pub mod <name> {` and
/// `}`. Its import path comes to be listed, and so do those of the modules below it that
/// are expanded, and none is taken off the list. The run is then where it was when it came
/// upon the declaration of the module, with the same settings.
pub proof fn law_module_is_enclosed(world: World, s: BundleState, left: Left)
    requires
        s.phase is OpeningMod,
        s.opening is Some,
        fits(s, left),
        expanded_mod(world, draft_of(s, 0), s.opening->0).error is None,
    ensures
        ({
            let m = s.opening->0;
            let d = expanded_mod(world, draft_of(s, 0), m);
            let below = d.modules.skip(1);
            let (t, next) = world.after(s, left, d.replies);
            &&& t == behind_mod(s, d)
            &&& next == left
            &&& appends_between(s.pen.bundle_file, t.pen.bundle_file, mod_head(m.name), "}\n"@)
            &&& same_settings(s.pen, t.pen)
            &&& d.modules == seq![m] + below
            &&& forall|k: int| 0 <= k < below.len() ==> is_below(Some(m), #[trigger] below[k])
            &&& t.skip_use == s.skip_use.insert(m.import).union(imports_of(below))
        }),
{
    let m = s.opening->0;
    let d0 = draft_of(s, 0);
    let d = expanded_mod(world, d0, m);
    assert(world.mod_text(m) is Some);
    lemma_expanded_mod(world, s, left, d0);
    let opened = mod_opened(world, d0, m);
    let done = lib_lines(world, opened, Some(m), world.mod_text(m)->0);
    lemma_lib_lines_grow(world, opened, Some(m), world.mod_text(m)->0);
    assert(opened.modules == seq![m]);
    assert(d.modules == done.modules);
    assert(done.modules == seq![m] + done.modules.skip(1));
    let tail = "}\n"@;
    let text = d.pen.bundle_file;
    assert(text == done.pen.bundle_file + tail);
    assert(text.skip(text.len() - tail.len()) == tail);
    assert((s.pen.bundle_file + mod_head(m.name)).is_prefix_of(text)) by {
        let n = opened.pen.bundle_file.len() as int;
        assert(text.take(n) == done.pen.bundle_file.take(n));
    }
}

/// Whatever the reply, the parts of the state go on belonging together.
pub proof fn law_reply_keeps_coherence(s: BundleState, reply: ReplyView)
    requires
        s.is_coherent(),
    ensures
        s.step(reply).is_coherent(),
{
}

/// What is written stays, and so does what is listed: each reply only appends to the
/// bundle, and takes no import path off the list of those expanded.
pub proof fn law_bundle_only_grows(s: BundleState, reply: ReplyView)
    ensures
        s.pen.bundle_file.is_prefix_of(s.step(reply).pen.bundle_file),
        s.skip_use.subset_of(s.step(reply).skip_use),
{
    let old_text = s.pen.bundle_file;
    assert(forall|text: Seq<char>| old_text.is_prefix_of(#[trigger] (old_text + text)));
    if let ReplyView::Line(raw) = reply {
        if s.phase is Reading {
            let line = match s.frames.last() {
                FrameView::Lib => drop_feed(raw),
                _ => drop_space(raw),
            };
            lemma_writing_appends(s.pen, line);
            lemma_writing_appends(s.pen, import_line(imports(s.library->0, line)->0->0));
        }
    }
}

/// The binary's own lines keep their paths: while one is read, no line counts as one of the
/// library.
pub proof fn law_binary_lines_keep_their_paths(s: BundleState)
    requires
        s.is_coherent(),
        s.phase is Reading,
        s.frames.last() is Bin,
    ensures
        !s.pen.in_lib,
        forall|line: Seq<char>| !s.pen.minify ==> #[trigger] s.pen.line_text(line) == line + "\n"@,
{
}

/// A run that is over stays as it is, whatever the reply.
pub proof fn law_end_is_final(s: BundleState, reply: ReplyView)
    requires
        is_over(s),
    ensures
        s.step(reply) == s,
{
}

} // verus!
