use folio::planner::{
    collision_base, is_in_place, plan_entry, plan_organize, render_template, resolve_collision,
    sanitize, DiskEntry, LayoutMode, PlanAction, PlanInput,
};
use folio::records::{FileRecord, FileStatus, HashAlgo, Identifier, IdentifierKind, Item, Library};

fn disk(paths: &[&str]) -> Vec<DiskEntry> {
    paths
        .iter()
        .map(|p| DiskEntry { path: p.to_string(), canonical: p.to_string() })
        .collect()
}

fn input(id: &str, source: &str) -> PlanInput {
    PlanInput {
        file_id: id.to_string(),
        source_path: source.to_string(),
        extension: ".epub".to_string(),
        title: Some("Title".to_string()),
        published_year: Some(1979),
        authors: Some("Author,Second".to_string()),
        isbn13: Some("9780306406157".to_string()),
    }
}

const TEMPLATE: &str = "{Author}/{Title}.{ext}";

#[test]
fn illegal_characters_become_hyphens_and_white_space_collapses() {
    assert_eq!(sanitize("A/B: C*?"), "A-B- C--");
    assert_eq!(sanitize("  Hitchhiker's \t Guide  "), "Hitchhiker's Guide");
    assert_eq!(sanitize("a\\b\"c<d>e|f"), "a-b-c-d-e-f");
    assert_eq!(sanitize(""), "");
    assert_eq!(sanitize("   "), "");
}

#[test]
fn templates_are_rendered_field_by_field() {
    assert_eq!(
        render_template(
            "{Author}/{Title} ({Year}) [{ISBN13}].{ext}",
            "Douglas  Adams",
            "Life: The Universe",
            Some(1982),
            Some("9780345391827"),
            ".epub",
        ),
        "Douglas Adams/Life- The Universe (1982) [9780345391827].epub"
    );
}

#[test]
fn absent_year_and_identifier_render_as_unknown() {
    assert_eq!(
        render_template("{Year}-{ISBN13}-{Title}.{ext}", "A", "T", None, None, "pdf"),
        "Unknown-Unknown-T.pdf"
    );
}

#[test]
fn years_render_in_decimal() {
    assert_eq!(render_template("{Year}", "", "", Some(0), None, ""), "0");
    assert_eq!(render_template("{Year}", "", "", Some(-44), None, ""), "-44");
    assert_eq!(render_template("{Year}", "", "", Some(2024), None, ""), "2024");
    assert_eq!(
        render_template("{Year}", "", "", Some(i64::MIN), None, ""),
        "-9223372036854775808"
    );
}

#[test]
fn every_field_is_sanitized() {
    assert_eq!(
        render_template("{ISBN13}.{ext}", "", "", None, Some("urn:x/1  2"), ".e/pub"),
        "urn-x-1 2.e-pub"
    );
}

#[test]
fn every_occurrence_of_a_placeholder_is_filled() {
    assert_eq!(
        render_template("{Title}/{Title}.{ext}", "A", "T", None, None, "..epub"),
        "T/T.epub"
    );
}

#[test]
fn a_free_path_is_taken_as_it_is() {
    let occupied = vec!["/lib/Other.epub".to_string()];
    assert_eq!(resolve_collision("/lib", "Author/Title.epub", &occupied), "/lib/Author/Title.epub");
}

#[test]
fn a_taken_path_gets_the_first_free_index() {
    let mut occupied = vec!["/lib/Author/Title.epub".to_string()];
    assert_eq!(
        resolve_collision("/lib", "Author/Title.epub", &occupied),
        "/lib/Author/Title [1].epub"
    );
    occupied.push("/lib/Author/Title [1].epub".to_string());
    occupied.push("/lib/Author/Title [2].epub".to_string());
    assert_eq!(
        resolve_collision("/lib", "Author/Title.epub", &occupied),
        "/lib/Author/Title [3].epub"
    );
}

#[test]
fn indices_run_past_nine() {
    let mut occupied = vec!["/lib/T.epub".to_string()];
    for i in 1..=11 {
        occupied.push(format!("/lib/T [{}].epub", i));
    }
    assert_eq!(resolve_collision("/lib", "T.epub", &occupied), "/lib/T [12].epub");
}

#[test]
fn names_without_extension_get_the_index_at_the_end() {
    let occupied = vec!["/lib/README".to_string()];
    assert_eq!(resolve_collision("/lib", "README", &occupied), "/lib/README [1]");
}

#[test]
fn the_resolved_path_never_exists() {
    let occupied = vec![
        "/lib/a.epub".to_string(),
        "/lib/a [2].epub".to_string(),
        "/lib/a [1].epub".to_string(),
    ];
    let resolved = resolve_collision("/lib", "a.epub", &occupied);
    assert!(!occupied.contains(&resolved));
    assert_eq!(resolved, "/lib/a [3].epub");
}

#[test]
fn collision_suffixes_are_recognised() {
    assert_eq!(collision_base("Title [2]"), Some("Title".to_string()));
    assert_eq!(collision_base("Title [12]"), Some("Title".to_string()));
    assert_eq!(collision_base("Title\t[7]"), Some("Title".to_string()));
    assert_eq!(collision_base(" [1]"), Some("".to_string()));
    assert_eq!(collision_base("A [1] [2]"), Some("A [1]".to_string()));
    assert_eq!(collision_base("Title[2]"), None);
    assert_eq!(collision_base("Title [2"), None);
    assert_eq!(collision_base("Title []"), None);
    assert_eq!(collision_base("Title [a]"), None);
    assert_eq!(collision_base("Title [2] "), None);
    assert_eq!(collision_base("Ti\ntle [2]"), Some("Ti\ntle".to_string()));
    assert_eq!(collision_base(""), None);
    assert_eq!(collision_base("[1]"), None);
}

#[test]
fn planning_into_a_taken_target_resolves_the_collision() {
    let on_disk = disk(&["/lib/Author/Title.epub", "/in/x.epub"]);
    let entry = plan_entry(&input("f1", "/in/x.epub"), LayoutMode::Move, "/lib", TEMPLATE, &on_disk);
    assert_eq!(entry.action, PlanAction::Move);
    assert_eq!(entry.target_path, "/lib/Author/Title [1].epub");
    assert_eq!(entry.source_path, "/in/x.epub");
    assert_eq!(entry.file_id, "f1");
    assert!(!on_disk.iter().any(|e| e.path == entry.target_path));
}

#[test]
fn the_mode_decides_between_copy_and_move() {
    let on_disk = disk(&["/in/x.epub"]);
    let copy = plan_entry(&input("f1", "/in/x.epub"), LayoutMode::Copy, "/lib", TEMPLATE, &on_disk);
    assert_eq!(copy.action, PlanAction::Copy);
    assert_eq!(copy.target_path, "/lib/Author/Title.epub");
    let reference =
        plan_entry(&input("f1", "/in/x.epub"), LayoutMode::Reference, "/lib", TEMPLATE, &on_disk);
    assert_eq!(reference.action, PlanAction::Skip);
    assert_eq!(reference.target_path, "/lib/Author/Title.epub");
}

#[test]
fn a_file_at_its_target_is_skipped() {
    let on_disk = disk(&["/lib/Author/Title.epub"]);
    for mode in [LayoutMode::Move, LayoutMode::Copy, LayoutMode::Reference] {
        let entry = plan_entry(&input("f1", "/lib/Author/Title.epub"), mode, "/lib", TEMPLATE, &on_disk);
        assert_eq!(entry.action, PlanAction::Skip);
        assert_eq!(entry.target_path, "/lib/Author/Title.epub");
    }
}

#[test]
fn a_file_with_a_prior_collision_suffix_is_skipped() {
    let on_disk = disk(&["/lib/Author/Title.epub", "/lib/Author/Title [2].epub"]);
    let entry = plan_entry(
        &input("f1", "/lib/Author/Title [2].epub"),
        LayoutMode::Move,
        "/lib",
        TEMPLATE,
        &on_disk,
    );
    assert_eq!(entry.action, PlanAction::Skip);
    assert_eq!(entry.target_path, "/lib/Author/Title.epub");
}

#[test]
fn a_file_placed_by_collision_resolution_is_skipped_the_next_time() {
    let mut on_disk = disk(&["/lib/Author/Title.epub", "/in/x.epub"]);
    let first = plan_entry(&input("f1", "/in/x.epub"), LayoutMode::Move, "/lib", TEMPLATE, &on_disk);
    assert_eq!(first.action, PlanAction::Move);
    assert_eq!(first.target_path, "/lib/Author/Title [1].epub");
    // The move is carried out: the file now sits at its target.
    on_disk = disk(&["/lib/Author/Title.epub", "/lib/Author/Title [1].epub"]);
    let again = plan_entry(&input("f1", &first.target_path), LayoutMode::Move, "/lib", TEMPLATE, &on_disk);
    assert_eq!(again.action, PlanAction::Skip);
}

#[test]
fn two_paths_to_one_file_count_as_the_same_place() {
    let on_disk = vec![
        DiskEntry { path: "/link/Title.epub".to_string(), canonical: "/real/Title.epub".to_string() },
        DiskEntry { path: "/lib/Author/Title.epub".to_string(), canonical: "/real/Title.epub".to_string() },
    ];
    assert!(is_in_place("/link/Title.epub", "/lib", "Author/Title.epub", &on_disk));
    let apart = vec![
        DiskEntry { path: "/link/Title.epub".to_string(), canonical: "/real/Title.epub".to_string() },
        DiskEntry { path: "/lib/Author/Title.epub".to_string(), canonical: "/else/Title.epub".to_string() },
    ];
    assert!(!is_in_place("/link/Title.epub", "/lib", "Author/Title.epub", &apart));
}

#[test]
fn a_different_directory_or_stem_is_not_the_same_place() {
    let none = disk(&[]);
    assert!(!is_in_place("/lib/Other/Title.epub", "/lib", "Author/Title.epub", &none));
    assert!(!is_in_place("/lib/Author/Titles.epub", "/lib", "Author/Title.epub", &none));
    assert!(!is_in_place("/lib/Author/Title (2).epub", "/lib", "Author/Title.epub", &none));
    assert!(is_in_place("/lib/Author/Title.pdf", "/lib", "Author/Title.epub", &none));
    assert!(is_in_place("/lib/Author/Title [9].epub", "/lib/", "Author/Title.epub", &none));
}

#[test]
fn a_plan_has_one_entry_per_file_in_order() {
    let on_disk = disk(&["/in/a.epub", "/in/b.epub", "/lib/Author/Title.epub"]);
    let files = vec![input("f1", "/in/a.epub"), input("f2", "/lib/Author/Title.epub"), input("f3", "/in/b.epub")];
    let plan = plan_organize(&files, LayoutMode::Copy, "/lib", TEMPLATE, &on_disk);
    assert_eq!(plan.mode, LayoutMode::Copy);
    assert_eq!(plan.library_root, "/lib");
    assert_eq!(plan.template, TEMPLATE);
    assert_eq!(plan.entries.len(), 3);
    let ids: Vec<&str> = plan.entries.iter().map(|e| e.file_id.as_str()).collect();
    assert_eq!(ids, vec!["f1", "f2", "f3"]);
    let actions: Vec<PlanAction> = plan.entries.iter().map(|e| e.action).collect();
    assert_eq!(actions, vec![PlanAction::Copy, PlanAction::Skip, PlanAction::Copy]);
    assert_eq!(plan.entries[0].target_path, "/lib/Author/Title [1].epub");
    // Planning changes nothing: the same input gives the same plan.
    let again = plan_organize(&files, LayoutMode::Copy, "/lib", TEMPLATE, &on_disk);
    for (a, b) in plan.entries.iter().zip(again.entries.iter()) {
        assert_eq!(a.target_path, b.target_path);
        assert_eq!(a.action, b.action);
    }
}

#[test]
fn the_first_author_and_a_default_title_are_used() {
    let on_disk = disk(&[]);
    let mut file = input("f1", "/in/a.epub");
    file.title = None;
    file.authors = None;
    let entry = plan_entry(&file, LayoutMode::Move, "/lib", "by {Author}/{Title}.{ext}", &on_disk);
    assert_eq!(entry.target_path, "/lib/by /Untitled.epub");
    // A rendered path that starts at the root replaces the library root.
    let entry = plan_entry(&file, LayoutMode::Move, "/lib", TEMPLATE, &on_disk);
    assert_eq!(entry.target_path, "/Untitled.epub");
    file.authors = Some("Le Guin, Ursula,Other".to_string());
    let entry = plan_entry(&file, LayoutMode::Move, "/lib", TEMPLATE, &on_disk);
    assert_eq!(entry.target_path, "/lib/Le Guin/Untitled.epub");
}

#[test]
fn the_library_plans_its_active_files() {
    let file = |id: &str, item: &str, path: &str, status: FileStatus| FileRecord {
        id: id.to_string(),
        item_id: item.to_string(),
        path: path.to_string(),
        filename: "f".to_string(),
        extension: ".epub".to_string(),
        size_bytes: Some(1),
        modified_at: Some(1),
        fingerprint: Some("aa".to_string()),
        hash_algo: Some(HashAlgo::Sha256),
        status,
        created_at: 1,
        updated_at: 1,
    };
    let isbn = |kind: IdentifierKind, value: &str| Identifier { kind, value: value.to_string() };
    let mut lib = Library::new();
    lib.items.push(Item {
        id: "i1".to_string(),
        title: Some("Dune".to_string()),
        language: None,
        published_year: Some(1965),
        description: None,
        series: None,
        authors: vec!["Frank Herbert".to_string(), "Someone Else".to_string()],
        identifiers: vec![
            isbn(IdentifierKind::Isbn13, "9780441013593"),
            isbn(IdentifierKind::Isbn10, "0441013597"),
            isbn(IdentifierKind::Isbn13, "9780593099322"),
            isbn(IdentifierKind::Isbn13, "9780340960196"),
        ],
        created_at: 1,
        updated_at: 1,
    });
    lib.files.push(file("f1", "i1", "/in/dune.epub", FileStatus::Active));
    lib.files.push(file("f2", "i1", "/in/gone.epub", FileStatus::Missing));
    lib.files.push(file("f3", "nobody", "/in/orphan.epub", FileStatus::Active));
    lib.files.push(file("f4", "i1", "/in/dune2.epub", FileStatus::Active));
    let rows = lib.plan_rows();
    assert_eq!(rows.len(), 2);
    assert_eq!(rows[0].file_id, "f1");
    assert_eq!(rows[0].title.as_deref(), Some("Dune"));
    assert_eq!(rows[0].published_year, Some(1965));
    assert_eq!(rows[0].authors.as_deref(), Some("Frank Herbert,Someone Else"));
    assert_eq!(rows[0].isbn13.as_deref(), Some("9780593099322"));
    assert_eq!(rows[1].file_id, "f4");
    let plan = lib.plan_organize(LayoutMode::Move, "/lib", "{Author}/{Title} ({Year}) {ISBN13}.{ext}", &disk(&[]));
    assert_eq!(plan.entries.len(), 2);
    assert_eq!(plan.entries[0].target_path, "/lib/Frank Herbert/Dune (1965) 9780593099322.epub");
    assert_eq!(plan.entries[1].target_path, "/lib/Frank Herbert/Dune (1965) 9780593099322.epub");
    assert_eq!(plan.entries[0].action, PlanAction::Move);
}
