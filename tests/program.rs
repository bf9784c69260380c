use plume::{Program, SourceFile};

#[test]
fn dependencies_are_the_import_paths() {
    let f = SourceFile::new(
        "src/main.plume".to_owned(),
        "import * from \"a.plume\" export { x } from \"b.plume\" function g() {} ",
    )
    .unwrap();
    assert_eq!(f.dependencies, vec!["a.plume".to_owned(), "b.plume".to_owned()]);
    assert!(f.validate());
}

#[test]
fn resolution_stops_on_cycles() {
    let main = SourceFile::new("dir/main.plume".to_owned(), "import * from \"util.plume\" ").unwrap();
    let mut program = Program::new(main);
    let next = program.missing();
    assert_eq!(next, Some("dir/util.plume".to_owned()));
    let util = SourceFile::new(
        "dir/util.plume".to_owned(),
        "import * from \"main.plume\" import * from \"util.plume\" ",
    )
    .unwrap();
    program.add_file(util);
    assert_eq!(program.missing(), None);
    assert_eq!(program.files.len(), 2);
    assert!(program.contains("dir/main.plume"));
    assert!(!program.contains("main.plume"));
    assert_eq!(program.validate(), vec![true, true]);
}

#[test]
fn resolve_over_a_file_set_handles_cycles_and_gaps() {
    let main = SourceFile::new("d/main.plume".to_owned(), "import * from \"a.plume\" ").unwrap();
    let a = SourceFile::new(
        "d/a.plume".to_owned(),
        "import * from \"main.plume\" import * from \"a.plume\" ",
    )
    .unwrap();
    let mut program = Program::new(main);
    assert_eq!(program.resolve(vec![a]), None);
    assert_eq!(program.files.len(), 2);

    let lone = SourceFile::new("d/lone.plume".to_owned(), "import * from \"gone.plume\" ").unwrap();
    let mut program = Program::new(lone);
    assert_eq!(program.resolve(vec![]), Some("d/gone.plume".to_owned()));
}
