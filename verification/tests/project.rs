use codeharbor::project::{detect_project, make_targets, ProjectFile};

fn file(path: &str, executable: bool) -> ProjectFile {
    ProjectFile {
        path: format!("/projects/demo/{path}"),
        has_execute_permission: executable,
    }
}

#[test]
fn detects_project_shape_and_artifacts() {
    let files = vec![
        file("Makefile", true),
        file("main.c", false),
        file("main.cpp", false),
        file("da/Back.png", true),
        file("main.gcov", false),
        file("my_binary", true),
    ];
    let makefile = "all:\n\tcc main.c\nclean:\n\trm -f my_binary\ntests_run:\n\ttrue\n";

    let inspection = detect_project("/projects/demo", &files, true, makefile);

    assert!(inspection.has_makefile);
    assert!(inspection.make_targets.contains(&"all".into()));
    assert!(inspection.make_targets.contains(&"clean".into()));
    assert!(inspection.make_targets.contains(&"tests_run".into()));
    let count = |language: &str| {
        inspection
            .language_counts
            .iter()
            .find(|(name, _)| name == language)
            .map(|(_, count)| *count)
    };
    assert_eq!(count("c"), Some(1));
    assert_eq!(count("cpp"), Some(1));
    assert!(inspection.executables.contains(&"my_binary".into()));
    assert!(!inspection.executables.contains(&"Makefile".into()));
    assert!(!inspection.executables.contains(&"da/Back.png".into()));
    assert!(inspection.artifacts.contains(&"main.gcov".into()));
}

#[test]
fn counts_languages_in_order_and_sorts_lists() {
    let files = vec![
        file("src/z.RS", false),
        file("b.c", false),
        file("a.h", false),
        file("x.C", false),
        file("logs/run.log", false),
        file("cov/a.gcda", false),
        file("zeta", true),
        file("alpha", true),
        file("script.py", true),
        file("notes", false),
    ];
    let inspection = detect_project("/projects/demo", &files, false, "");
    assert!(!inspection.has_makefile);
    assert!(inspection.make_targets.is_empty());
    assert_eq!(
        inspection.language_counts,
        vec![("c".to_string(), 2), ("h".to_string(), 1), ("py".to_string(), 1), ("rs".to_string(), 1)]
    );
    assert_eq!(inspection.executables, vec!["alpha".to_string(), "zeta".to_string()]);
    assert_eq!(inspection.artifacts, vec!["cov/a.gcda".to_string(), "logs/run.log".to_string()]);
}

#[test]
fn parses_makefile_targets() {
    let targets = make_targets(
        "NAME = app\nall: $(NAME)\n\n$(NAME): main.o\n\tcc -o $@\nre: fclean all\n# hidden: x\n indented: y\ntests_run :\nall:\n.PHONY: all re\nfclean:\r\nweird target:\n",
    );
    assert_eq!(
        targets,
        vec!["all".to_string(), "fclean".to_string(), "re".to_string(), "tests_run".to_string()]
    );
    assert!(make_targets("").is_empty());
    assert_eq!(make_targets("x:"), vec!["x".to_string()]);
}

#[test]
fn ignores_makefile_text_without_a_makefile() {
    let inspection = detect_project("/p", &Vec::new(), false, "all:\nclean:\n");
    assert!(!inspection.has_makefile);
    assert!(inspection.make_targets.is_empty());
}

#[test]
fn classifies_files_by_their_path_on_disk() {
    let files = vec![
        ProjectFile {
            path: "/p/x\\Makefile".into(),
            has_execute_permission: true,
        },
        ProjectFile {
            path: "/p/build/run.LOG".into(),
            has_execute_permission: false,
        },
        ProjectFile {
            path: "/elsewhere/tool".into(),
            has_execute_permission: true,
        },
    ];
    let inspection = detect_project("/p", &files, false, "");
    assert_eq!(inspection.executables, vec!["/elsewhere/tool".to_string(), "x/Makefile".to_string()]);
    assert_eq!(inspection.artifacts, vec!["build/run.LOG".to_string()]);
}
