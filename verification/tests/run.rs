use sourcebundler::{BundleError, Bundler, Reply, Request};

/// A project in memory: the files by path, the first of which is the binary's source.
struct Project {
    dirs: Vec<bool>,
    package: Option<Option<&'static str>>,
    files: Vec<(&'static str, &'static str)>,
}

struct Outcome {
    end: Result<Option<String>, BundleError>,
    text: String,
    opened: Vec<String>,
}

fn project(files: &[(&'static str, &'static str)]) -> Project {
    Project { dirs: vec![false, false, true], package: Some(Some("my-lib")), files: files.to_vec() }
}

fn lines(text: &str) -> Vec<String> {
    text.split_inclusive('\n').map(String::from).collect()
}

fn drive(mut b: Bundler, project: &Project) -> Outcome {
    let mut dirs = project.dirs.clone().into_iter();
    let mut open: Vec<std::vec::IntoIter<String>> = Vec::new();
    let mut opened = Vec::new();
    let mut announced = None;
    loop {
        let reply = match b.request() {
            Request::Canonicalize(path) => {
                assert_eq!(path, "src/main.rs");
                Reply::Done
            }
            Request::Probe => match dirs.next() {
                Some(true) => Reply::Present,
                Some(false) => Reply::Absent,
                None => Reply::Exhausted,
            },
            Request::LoadManifest => match project.package {
                Some(name) => Reply::Manifest(name.map(String::from)),
                None => Reply::Failed,
            },
            Request::OpenBin(path) | Request::OpenSource(path) => {
                opened.push(path.clone());
                match project.files.iter().find(|(name, _)| *name == path) {
                    Some((_, text)) => {
                        open.push(lines(text).into_iter());
                        Reply::Done
                    }
                    None => Reply::Failed,
                }
            }
            Request::ReadLine => match open.last_mut().unwrap().next() {
                Some(line) if line == "<broken>\n" => Reply::Failed,
                Some(line) => Reply::Line(line),
                None => {
                    open.pop();
                    Reply::Eof
                }
            },
            Request::Flush(line) => {
                announced = line;
                Reply::Done
            }
            Request::Finished => {
                return Outcome { end: Ok(announced), text: b.bundle_file().to_string(), opened };
            }
            Request::Failed(error) => {
                return Outcome { end: Err(error), text: b.bundle_file().to_string(), opened };
            }
        };
        b.run(reply);
    }
}

fn bundle(files: &[(&'static str, &'static str)]) -> Outcome {
    drive(Bundler::new_fd("src/main.rs", String::new()), &project(files))
}

const MAIN: &str = "extern crate my_lib;\nfn main() {}\n";

#[test]
fn expands_the_library_and_its_modules() {
    let out = bundle(&[
        (
            "src/main.rs",
            "#![warn(unused)]\nextern crate my_lib; // the library\nuse my_lib::submod2;\nfn main() {\n    submod2::hello_world2(); // call  \n}\n",
        ),
        ("src/lib.rs", "#![warn(missing_docs)]\npub mod submod1;\nmod submod2; // second\n#[cfg(test)]\nmod tests;\n"),
        ("src/submod1.rs", "pub fn hello_world1() {}\n"),
        (
            "src/submod2/mod.rs",
            "use crate::submod1;\n// full-line comment: should be preserved in the bundle\npub fn hello_world2() {\n    submod1::hello_world1(); // via `use crate::submod1`\n    crate::submod1::hello_world1(); // inline crate:: path\n}\npub mod deep;\nmod tests;\n",
        ),
        ("src/submod2/deep.rs", "crate::m!();\n"),
    ]);
    assert_eq!(out.end, Ok(None));
    assert_eq!(
        out.text,
        "pub mod my_lib {\npub mod submod1 {\npub fn hello_world1() {}\n}\npub mod submod2 {\nuse crate::my_lib::submod1;\n// full-line comment: should be preserved in the bundle\npub fn hello_world2() {\n    submod1::hello_world1(); // via `use crate::my_lib::submod1`\n    crate::my_lib::submod1::hello_world1(); // inline crate::my_lib:: path\n}\npub mod deep {\ncrate::m!();\n}\n}\n#[cfg(test)]\n}\nuse self::my_lib::submod2;\nfn main() {\n    submod2::hello_world2(); // call\n}\n"
    );
    assert_eq!(
        out.opened,
        vec![
            "src/main.rs",
            "src/lib.rs",
            "src/submod1.rs",
            "src/submod2.rs",
            "src/submod2/mod.rs",
            "src/submod2/deep.rs"
        ]
    );
}

#[test]
fn binary_lines_keep_their_paths() {
    let out = bundle(&[
        ("src/main.rs", "crate::a();\nextern crate my_lib;\ncrate::b();\n"),
        ("src/lib.rs", "crate::c();\n"),
    ]);
    assert_eq!(out.text, "crate::a();\npub mod my_lib {\ncrate::my_lib::c();\n}\ncrate::b();\n");
}

#[test]
fn comment_state_is_carried_through_the_bundle() {
    let mut b = Bundler::new_fd("src/main.rs", String::new());
    b.strip_comments_set(true);
    b.minify_set(true);
    let out = drive(
        b,
        &project(&[
            ("src/main.rs", "// note\n  extern crate my_lib;\n  x; // y\n"),
            ("src/lib.rs", "// bundle-keep\n  // credit\n  a; /* b\n  c */ d;\n"),
        ]),
    );
    assert_eq!(out.text, "pub mod my_lib {\n  // credit\na; \nd;\n}\nx; \n");
}

#[test]
fn link_lines() {
    for line in [
        "extern crate my_lib;",
        "  extern\tcrate   my_lib ;  // c",
        "extern crate my_lib;//",
    ] {
        let text: &'static str = Box::leak(format!("{}\n", line).into_boxed_str());
        let out = bundle(&[("src/main.rs", text), ("src/lib.rs", "")]);
        assert_eq!(out.text, "pub mod my_lib {\n}\n", "{}", line);
    }
    for line in [
        "extern crate my_libs;",
        "pub extern crate my_lib;",
        "externcrate my_lib;",
        "extern crate my_lib; x",
        "extern crate my_lib as l;",
    ] {
        let text: &'static str = Box::leak(format!("{}\n", line).into_boxed_str());
        let out = bundle(&[("src/main.rs", text)]);
        assert_eq!(out.text, text, "{}", line);
    }
}

#[test]
fn import_lines() {
    for (line, text) in [
        ("use my_lib::a::b;", "use self::my_lib::a::b;"),
        // The group is greedy: the space before the `;` belongs to it.
        ("  use  my_lib::{a, b} ; // c", "use self::my_lib::{a, b} ;"),
        ("use my_lib::;", "use self::my_lib::;"),
        ("use my_lib:: ;", "use self::my_lib:: ;"),
        ("use my_lib::a; // b;", "use self::my_lib::a; // b;"),
        ("use my_lib::a; // b; // c", "use self::my_lib::a; // b;"),
        ("use my_lib::{a /* b */};", "use self::my_lib::{a /* b */};"),
        ("use my_lib;", "use my_lib;"),
        ("pub use my_lib::a;", "pub use my_lib::a;"),
        ("use my_libs::a;", "use my_libs::a;"),
        ("use my_lib::{", "use my_lib::{"),
    ] {
        let main: &'static str = Box::leak(format!("{}\n", line).into_boxed_str());
        let out = bundle(&[("src/main.rs", main)]);
        assert_eq!(out.text, format!("{}\n", text), "{}", line);
    }
}

#[test]
fn module_declarations() {
    for (line, path) in [
        ("mod a;", "src/a.rs"),
        ("  pub  mod\ta; // c", "src/a.rs"),
        ("pub mod r#type;", "src/r#type.rs"),
        // The group is greedy.
        ("mod a ;", "src/a .rs"),
        ("mod tests ;", "src/tests .rs"),
        ("mod a; // b;", "src/a; // b.rs"),
        // Where the name is missing, a space takes its place.
        ("mod  ;", "src/ .rs"),
        ("pub mod  \t; // c", "src/\t.rs"),
        ("mod ;;", "src/;.rs"),
    ] {
        let lib: &'static str = Box::leak(format!("{}\n", line).into_boxed_str());
        let out = bundle(&[("src/main.rs", MAIN), ("src/lib.rs", lib)]);
        assert_eq!(out.end, Err(BundleError::NoModFile), "{}", line);
        assert_eq!(out.opened[2], path, "{}", line);
    }
    for line in [
        "pub(crate) mod a;",
        "mod a {",
        "mod ;",
        "modx;",
        "mod tests;",
        "mod tests; // a",
        "pub mod tests;",
    ] {
        let lib: &'static str = Box::leak(format!("{}\n", line).into_boxed_str());
        let out = bundle(&[("src/main.rs", MAIN), ("src/lib.rs", lib)]);
        assert_eq!(out.end, Ok(None), "{}", line);
        assert_eq!(out.opened.len(), 2, "{}", line);
    }
}

#[test]
fn only_the_line_feed_of_a_library_line_is_dropped() {
    let out = bundle(&[("src/main.rs", MAIN), ("src/lib.rs", "a;  \r\nb;")]);
    assert_eq!(out.text, "pub mod my_lib {\na;  \r\nb;\n}\nfn main() {}\n");
    let out = bundle(&[("src/main.rs", MAIN), ("src/lib.rs", "pub fn f() {}")]);
    assert_eq!(out.text, "pub mod my_lib {\npub fn f() {}\n}\nfn main() {}\n");
    let out = bundle(&[("src/main.rs", MAIN), ("src/lib.rs", "mod a;"), ("src/a.rs", "x;  ")]);
    assert_eq!(out.text, "pub mod my_lib {\npub mod a {\nx;\n}\n}\nfn main() {}\n");
}

fn bundle_stripped(files: &[(&'static str, &'static str)]) -> Outcome {
    let mut b = Bundler::new_fd("src/main.rs", String::new());
    b.strip_comments_set(true);
    drive(b, &project(files))
}

#[test]
fn lines_of_a_block_comment_are_not_expanded() {
    let out = bundle_stripped(&[("src/main.rs", "/*\nuse my_lib::old;\n*/\nfn main() {}\n")]);
    assert_eq!(out.end, Ok(None));
    assert_eq!(out.text, "fn main() {}\n");
    let out = bundle_stripped(&[
        ("src/main.rs", "/*\nextern crate my_lib;\n*/\nextern crate my_lib;\n"),
        ("src/lib.rs", "/* #\n#![warn(a)] */ x;\nmod a; /*\nmod b;\n*/ y;\n"),
    ]);
    // `mod a; /*` is no declaration: only a line comment may follow one.
    assert_eq!(out.end, Ok(None));
    assert_eq!(out.text, "pub mod my_lib {\n x;\nmod a; \n y;\n}\n");
    let out = bundle(&[("src/main.rs", "/*\nuse my_lib::old;\n*/\n")]);
    assert_eq!(out.text, "/*\nuse self::my_lib::old;\n*/\n");
}

#[test]
fn lines_of_a_string_are_not_expanded() {
    let out = bundle_stripped(&[(
        "src/main.rs",
        "let s = \"a\nuse my_lib::old;\n// bundle-keep\n\n#![warn(x)]\nb\"; // c\n// d\n",
    )]);
    assert_eq!(
        out.text,
        "let s = \"a\nuse my_lib::old;\n// bundle-keep\n\n#![warn(x)]\nb\"; \n"
    );
}

#[test]
fn expanded_lines_lose_their_comments() {
    let out = bundle_stripped(&[
        ("src/main.rs", "use my_lib::{a /* b */, c}; // d;\nextern crate my_lib; // e\n"),
        ("src/lib.rs", "#![warn(a)] /* b\nc */\n/* d */ e;\n"),
    ]);
    assert_eq!(out.text, "use self::my_lib::{a , c}; \npub mod my_lib {\n e;\n}\n");
}

#[test]
fn keep_mode_ends_at_an_expanded_line() {
    let out = bundle_stripped(&[
        ("src/main.rs", "// bundle-keep\n// a\nextern crate my_lib;\n// b\n"),
        ("src/lib.rs", "// c\n// bundle-keep\n// from crate::d\nmod e;\n// f\n"),
        ("src/e.rs", "// g\n// bundle-keep\n// h\n#![warn(i)]\n// j\n"),
    ]);
    assert_eq!(
        out.text,
        "// a\npub mod my_lib {\n// from crate::d\npub mod e {\n// h\n}\n}\n"
    );
}

#[test]
fn library_can_be_pulled_in_twice() {
    let out = bundle(&[
        ("src/main.rs", "extern crate my_lib;\nextern crate my_lib;\n"),
        ("src/lib.rs", "mod a;\n"),
        ("src/a.rs", ""),
    ]);
    assert_eq!(out.end, Ok(None));
    assert_eq!(out.text, "pub mod my_lib {\npub mod a {\n}\n}\npub mod my_lib {\npub mod a {\n}\n}\n");
}

#[test]
fn bundle_for_a_file_announces_it() {
    let out = drive(Bundler::new("src/main.rs", "out.rs"), &project(&[("src/main.rs", "x\n")]));
    assert_eq!(out.end, Ok(Some(String::from("rerun-if-changed=out.rs"))));
    assert_eq!(out.text, "x\n");
}

#[test]
fn crate_name_comes_from_the_manifest() {
    let mut b = Bundler::new_fd("src/main.rs", String::new());
    b.crate_name("other");
    let out = drive(b, &project(&[("src/main.rs", MAIN), ("src/lib.rs", "")]));
    assert_eq!(out.text, "pub mod my_lib {\n}\nfn main() {}\n");
}

#[test]
fn manifest_is_looked_for_upwards() {
    let mut p = project(&[("src/main.rs", "")]);
    p.dirs = vec![false, false];
    let out = drive(Bundler::new_fd("src/main.rs", String::new()), &p);
    assert_eq!(out.end, Err(BundleError::NoManifest));
    p.dirs = vec![];
    let out = drive(Bundler::new_fd("src/main.rs", String::new()), &p);
    assert_eq!(out.end, Err(BundleError::NoManifest));
}

#[test]
fn manifest_without_package_or_unreadable() {
    let mut p = project(&[("src/main.rs", "")]);
    p.package = Some(None);
    let out = drive(Bundler::new_fd("src/main.rs", String::new()), &p);
    assert_eq!(out.end, Err(BundleError::NoCrateName));
    p.package = None;
    let out = drive(Bundler::new_fd("src/main.rs", String::new()), &p);
    assert_eq!(out.end, Err(BundleError::BadManifest));
}

#[test]
fn crate_name_that_makes_no_pattern() {
    let mut p = project(&[("src/main.rs", "x\n")]);
    p.package = Some(Some("a("));
    let out = drive(Bundler::new_fd("src/main.rs", String::new()), &p);
    assert_eq!(out.end, Err(BundleError::BadPattern));
    assert_eq!(out.text, "");
    // A name that is not plain is read as part of a pattern.
    p.package = Some(Some("a+"));
    p.files = vec![("src/main.rs", "extern crate aaa;\nuse aa::b;\n"), ("src/lib.rs", "")];
    let out = drive(Bundler::new_fd("src/main.rs", String::new()), &p);
    assert_eq!(out.end, Ok(None));
    assert_eq!(out.text, "pub mod a+ {\n}\nuse self::aa::b;\n");
    // Beyond ASCII too a name is bundled.
    p.package = Some(Some("\u{e9}t\u{e9}"));
    p.files = vec![
        ("src/main.rs", "extern crate \u{e9}t\u{e9};\nuse \u{e9}t\u{e9}::b;\n"),
        ("src/lib.rs", "crate::a;\n"),
    ];
    let out = drive(Bundler::new_fd("src/main.rs", String::new()), &p);
    assert_eq!(out.end, Ok(None));
    assert_eq!(
        out.text,
        "pub mod \u{e9}t\u{e9} {\ncrate::\u{e9}t\u{e9}::a;\n}\nuse self::\u{e9}t\u{e9}::b;\n"
    );
}

#[test]
fn files_that_cannot_be_opened() {
    let out = bundle(&[]);
    assert_eq!(out.end, Err(BundleError::OpenBin));
    let out = bundle(&[("src/main.rs", MAIN)]);
    assert_eq!(out.end, Err(BundleError::OpenLib));
    assert_eq!(out.text, "pub mod my_lib {\n");
    let out = bundle(&[("src/main.rs", MAIN), ("src/lib.rs", "a;\nmod b;\n")]);
    assert_eq!(out.end, Err(BundleError::NoModFile));
    assert_eq!(out.opened[2..], ["src/b.rs", "src/b/mod.rs"]);
    assert_eq!(out.text, "pub mod my_lib {\na;\n");
}

#[test]
fn line_that_cannot_be_read() {
    let out = bundle(&[("src/main.rs", MAIN), ("src/lib.rs", "a;\n<broken>\nb;\n")]);
    assert_eq!(out.end, Err(BundleError::Read));
    assert_eq!(out.text, "pub mod my_lib {\na;\n");
}

#[test]
fn failed_steps_end_the_run() {
    let mut b = Bundler::new_fd("x", String::new());
    b.run(Reply::Failed);
    assert!(matches!(b.request(), Request::Failed(BundleError::Canonicalize)));
    // It stays failed.
    b.run(Reply::Done);
    assert!(matches!(b.request(), Request::Failed(BundleError::Canonicalize)));

    let mut b = Bundler::new_fd("x", String::new());
    b.run(Reply::Eof);
    assert!(matches!(b.request(), Request::Failed(BundleError::UnexpectedReply)));

    let mut b = Bundler::new_fd("x", String::new());
    b.run(Reply::Done);
    b.run(Reply::Present);
    b.run(Reply::Manifest(Some(String::from("a-b-c"))));
    b.run(Reply::Done);
    b.run(Reply::Eof);
    assert!(matches!(b.request(), Request::Flush(None)));
    b.run(Reply::Failed);
    assert!(matches!(b.request(), Request::Failed(BundleError::Flush)));
}
