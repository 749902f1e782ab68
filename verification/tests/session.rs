use rumoca::session::lru::LruMap;
use rumoca::session::queries::{document_symbols, workspace_symbol_search, QueryState};
use rumoca::session::session::{Session, SessionChange};
use rumoca::session::store::{RevisionId, SourceRootDurability, SourceRootKind};

#[test]
fn lru_map_refresh_and_trim_preserves_recent_entries() {
    let mut cache = LruMap::new();
    cache.insert("a".to_string(), 1);
    cache.insert("b".to_string(), 2);

    let refreshed = cache
        .shift_remove("a")
        .expect("entry should be removable for recency refresh");
    cache.insert("a".to_string(), refreshed);
    cache.insert("c".to_string(), 3);
    cache.trim_to(2);

    assert_eq!(cache.get("a"), Some(&1));
    assert_eq!(cache.get("b"), None);
    assert_eq!(cache.get("c"), Some(&3));
}

#[test]
fn test_session_add_document() {
    let mut session = Session::new();
    session
        .add_document("test.mo", "model M Real x; end M;")
        .unwrap();
    assert!(session.get_document("test.mo").is_some());
}

#[test]
fn session_snapshot_keeps_document_and_query_view_after_host_edit() {
    let mut session = Session::new();
    let source_v1 = "model M\n  Real x;\nend M;\n";
    let source_v2 = "model M\n  Real y;\nend M;\n";
    session
        .add_document("test.mo", source_v1)
        .expect("initial document should parse");

    let snapshot = session.snapshot();

    session.update_document("test.mo", source_v2);

    let snapshot_doc = snapshot
        .get_document("test.mo")
        .expect("snapshot should retain original document");
    let host_doc = session
        .get_document("test.mo")
        .expect("host should expose updated document");
    assert_eq!(&*snapshot_doc.content, source_v1);
    assert_eq!(&*host_doc.content, source_v2);

    let snapshot_items = snapshot.class_local_completion_items_query("test.mo", "M");
    let host_items = session.class_local_completion_items_query("test.mo", "M");
    assert_eq!(snapshot_items, vec!["x"]);
    assert_eq!(host_items, vec!["y"]);
}

#[test]
fn session_snapshots_share_query_warmth_across_reads() {
    let mut queries = QueryState::new();
    queries.reset_session_cache_stats();

    let mut session = Session::new();
    session
        .add_document("test.mo", "model M\n  Real x;\nend M;\n")
        .expect("document should parse");

    let first_snapshot = session.snapshot();
    let first_symbols = document_symbols(&first_snapshot.documents, &mut queries, "test.mo")
        .expect("first snapshot should build an outline");
    drop(first_snapshot);
    assert!(!first_symbols.is_empty());
    let stats_after_first = queries.stats;

    let second_snapshot = session.snapshot();
    let second_symbols = document_symbols(&second_snapshot.documents, &mut queries, "test.mo")
        .expect("second snapshot should reuse the outline");
    drop(second_snapshot);
    assert_eq!(first_symbols.len(), second_symbols.len());

    let delta = queries.stats.delta_since(stats_after_first);
    assert!(
        delta.document_symbol_query_hits >= 1,
        "second snapshot should reuse warmed query state"
    );
    assert_eq!(
        delta.document_symbol_query_misses, 0,
        "second snapshot should not rebuild the outline from cold state"
    );
}

#[test]
fn session_snapshots_preserve_workspace_symbol_warmth_across_body_only_edits() {
    let mut queries = QueryState::new();
    queries.reset_session_cache_stats();

    let mut session = Session::new();
    session
        .add_document(
            "test.mo",
            "package Lib\n  model Helper\n    Real y;\n  equation\n    y = 1;\n  end Helper;\nend Lib;\n\nmodel M\n  import Alias = Lib.Helper;\n  Alias helperInst;\nequation\n  helperInst.y = sin(helperInst.y);\nend M;\n",
        )
        .expect("document should parse");

    let first_snapshot = session.snapshot();
    let first_symbols =
        workspace_symbol_search(&first_snapshot.documents, &mut queries, "Helper");
    drop(first_snapshot);
    assert!(
        first_symbols.iter().any(|symbol| symbol.name == "Helper"),
        "first snapshot should build workspace symbols"
    );

    session.update_document(
        "test.mo",
        "package Lib\n  model Helper\n    Real y;\n  equation\n    y = 1;\n  end Helper;\nend Lib;\n\nmodel M\n  import Alias = Lib.Helper;\n  Alias helperInst;\nequation\n  helperInst.y = cos(helperInst.y);\nend M;\n",
    );

    let stats_after_edit = queries.stats;
    let second_snapshot = session.snapshot();
    let second_symbols =
        workspace_symbol_search(&second_snapshot.documents, &mut queries, "Helper");
    drop(second_snapshot);
    assert!(
        second_symbols.iter().any(|symbol| symbol.name == "Helper"),
        "body-only edits should preserve workspace symbol results"
    );

    let delta = queries.stats.delta_since(stats_after_edit);
    assert!(
        delta.workspace_symbol_query_hits >= 1,
        "body-only edits should keep the workspace symbol cache warm across snapshots"
    );
    assert_eq!(
        delta.workspace_symbol_query_misses, 0,
        "body-only edits should not rebuild workspace symbols from cold state"
    );
    assert_eq!(
        delta.file_item_index_query_hits + delta.file_item_index_query_misses,
        0,
        "warm workspace symbol reuse should avoid rebuilding per-file symbol indexes"
    );
}

#[test]
fn session_tracks_stable_file_ids_and_revisions_across_document_lifecycle() {
    let mut session = Session::new();
    let source_v1 = "model M\n  Real x;\nend M;\n";
    let source_v2 = "model M\n  Real x;\n  Real y;\nend M;\n";

    assert_eq!(session.current_revision, RevisionId::default());

    session
        .add_document("test.mo", source_v1)
        .expect("first document should parse");
    let file_id = session
        .file_id("test.mo")
        .expect("file id should be assigned on insert");
    let first_revision = session.current_revision;
    assert_eq!(session.file_revision("test.mo"), Some(first_revision));

    let unchanged = session.update_document("test.mo", source_v1);
    assert!(
        unchanged.is_none(),
        "no-op update should keep parse success"
    );
    assert_eq!(
        session.current_revision, first_revision,
        "no-op update must not bump the session revision"
    );
    assert_eq!(
        session.file_id("test.mo"),
        Some(file_id),
        "file id should remain stable on no-op updates"
    );

    let changed = session.update_document("test.mo", source_v2);
    assert!(changed.is_none(), "updated document should parse");
    let second_revision = session.current_revision;
    assert!(
        second_revision > first_revision,
        "successful edits must bump the session revision"
    );
    assert_eq!(
        session.file_id("test.mo"),
        Some(file_id),
        "file id should remain stable across edits"
    );
    assert_eq!(
        session.file_revision("test.mo"),
        Some(second_revision),
        "latest file revision should follow the session revision"
    );

    session.remove_document("test.mo");
    let removed_revision = session.current_revision;
    assert!(
        removed_revision > second_revision,
        "document removal must bump the session revision"
    );

    session
        .add_document("test.mo", source_v1)
        .expect("re-added document should parse");
    assert_eq!(
        session.file_id("test.mo"),
        Some(file_id),
        "re-adding the same URI should preserve the stable file id for the session lifetime"
    );
    assert!(
        session.current_revision > removed_revision,
        "re-adding the document must bump the session revision again"
    );
}

#[test]
fn session_change_keeps_workspace_root_membership_and_detaches_external_overlay() {
    let mut session = Session::new();
    let source = "model M\n  Real x;\nend M;\n";

    let mut workspace_change = SessionChange::new();
    workspace_change.replace_source_root(
        "workspace",
        SourceRootKind::Workspace,
        vec!["workspace/M.mo".to_string()],
    );
    workspace_change.set_file_text("workspace/M.mo", source);
    session.apply_change(&workspace_change);

    let workspace_revision = session.current_revision;
    let workspace_record = session
        .source_set("workspace")
        .expect("workspace root should be recorded");
    assert_eq!(workspace_record.kind, SourceRootKind::Workspace);
    assert_eq!(workspace_record.durability, SourceRootDurability::Volatile);
    assert!(
        workspace_record.uris.contains(&"workspace/M.mo".to_string()),
        "workspace text updates should stay inside the workspace root"
    );
    assert!(session.file_id("workspace/M.mo").is_some());
    assert_eq!(
        session.file_revision("workspace/M.mo"),
        Some(workspace_revision),
        "workspace file change should share the transaction revision"
    );

    let mut external_change = SessionChange::new();
    external_change.replace_source_root(
        "external",
        SourceRootKind::External,
        vec!["external/Lib.mo".to_string()],
    );
    external_change.set_file_text("external/Lib.mo", source);
    session.apply_change(&external_change);

    let external_record = session
        .source_set("external")
        .expect("external source root should be recorded");
    assert_eq!(external_record.kind, SourceRootKind::External);
    assert_eq!(external_record.durability, SourceRootDurability::Normal);
    assert!(
        external_record.uris.is_empty(),
        "text overlays should detach files from external source roots"
    );
    assert!(
        session.get_document("external/Lib.mo").is_some(),
        "detached external overlay should still exist as a live document"
    );
    assert!(
        session.is_non_workspace_source_root_document("external/Lib.mo"),
        "detached external overlays should still resolve as external source-root-backed documents"
    );
}

#[test]
fn session_change_empty_and_noop_updates_do_not_bump_revision() {
    let mut session = Session::new();

    session.apply_change(&SessionChange::new());
    assert_eq!(session.current_revision, RevisionId::new(0));

    let source = "model M\n  Real x;\nend M;\n";
    let mut first = SessionChange::new();
    first.replace_source_root(
        "workspace",
        SourceRootKind::Workspace,
        vec!["workspace/M.mo".to_string()],
    );
    first.set_file_text("workspace/M.mo", source);
    session.apply_change(&first);

    let revision = session.current_revision;
    let mut noop = SessionChange::new();
    noop.replace_source_root(
        "workspace",
        SourceRootKind::Workspace,
        vec!["workspace/M.mo".to_string()],
    );
    noop.set_file_text("workspace/M.mo", source);
    session.apply_change(&noop);

    assert_eq!(
        session.current_revision, revision,
        "identical transactional inputs should not advance the revision"
    );
}

#[test]
fn files_keep_their_identity_through_any_change() {
    let mut session = Session::default();
    session.add_document("a.mo", "model A end A;").unwrap();
    session.add_document("b.mo", "model B end B;").unwrap();
    let a = session.file_id("a.mo").unwrap();
    let b = session.file_id("b.mo").unwrap();
    assert_ne!(a, b);
    let mut change = SessionChange::new();
    change.set_file_text("c.mo", "model C end C;");
    change.set_file_text("a.mo", "model A Real x; end A;");
    change.replace_source_root("lib", SourceRootKind::External, vec!["l.mo".to_string()]);
    session.apply_change(&change);
    session.remove_document("b.mo");
    assert_eq!(session.file_id("a.mo"), Some(a));
    assert_eq!(session.file_id("b.mo"), Some(b));
    assert!(session.get_document("b.mo").is_none());
    assert_eq!(session.file_revision("a.mo"), session.file_revision("c.mo"));
    assert_eq!(session.current_revision, RevisionId::new(4));
    assert_eq!(session.file_revision("b.mo"), Some(RevisionId::new(4)));
    session.remove_document("nowhere.mo");
    assert_eq!(session.current_revision, RevisionId::new(4));
}

#[test]
fn texts_are_read_back_and_unreadable_ones_are_reported() {
    let mut session = Session::new();
    assert!(session.add_document("a.mo", "model A").is_err());
    assert!(session.get_document("a.mo").is_none());
    session.add_document("a.mo", "model A Real x; end A;").unwrap();
    let error = session.update_document("a.mo", "model A Real").unwrap();
    assert_eq!(error.uri, "a.mo");
    assert_eq!(session.get_document("a.mo").unwrap().content, "model A Real");
    assert_eq!(session.class_local_completion_items_query("a.mo", "A"), vec!["x"]);
}

#[test]
fn edited_files_are_taken_over_from_external_roots() {
    let mut session = Session::new();
    let mut change = SessionChange::new();
    change.replace_source_root("lib", SourceRootKind::External, vec!["l.mo".to_string()]);
    session.apply_change(&change);
    session.update_document("l.mo", "model L end L;");
    let record = session.source_set("lib").unwrap();
    assert!(record.uris.is_empty());
    assert_eq!(record.detached, vec!["l.mo"]);
    assert!(session.is_non_workspace_source_root_document("l.mo"));
    assert_eq!(SourceRootKind::Workspace.durability(), SourceRootDurability::Volatile);
}

#[test]
fn used_entries_survive_trimming() {
    let mut cache = LruMap::new();
    for (key, value) in [("a", 1), ("b", 2), ("c", 3)] {
        cache.insert_lru_cache_entry(key.to_string(), value, 2);
    }
    assert_eq!(cache.get("a"), None);
    assert!(cache.get_lru_cache_entry("b"));
    assert!(!cache.get_lru_cache_entry("a"));
    cache.insert_lru_cache_entry("d".to_string(), 4, 2);
    assert_eq!(cache.get("b"), Some(&2));
    assert_eq!(cache.get("c"), None);
    assert_eq!(cache.len(), 2);
}

fn files(list: &[(&str, &str)]) -> Vec<(String, String)> {
    list.iter().map(|(uri, text)| (uri.to_string(), text.to_string())).collect()
}

#[test]
fn session_snapshot_keeps_loaded_source_root_membership_after_host_removal() {
    let mut session = Session::default();
    session.replace_parsed_source_set(
        "Modelica",
        SourceRootKind::DurableExternal,
        &files(&[("Modelica/package.mo", "package Modelica\nend Modelica;\n")]),
    );
    assert!(session.is_non_workspace_source_root_document("Modelica/package.mo"));

    let snapshot = session.snapshot();

    session.remove_source_set("Modelica");

    assert!(
        snapshot.is_non_workspace_source_root_document("Modelica/package.mo"),
        "snapshot should retain loaded source-root ownership"
    );
    assert!(
        snapshot.document_uris().contains(&"Modelica/package.mo".to_string()),
        "snapshot should retain the source-root document view"
    );
    assert!(
        !session.is_non_workspace_source_root_document("Modelica/package.mo"),
        "host should reflect the removed source root"
    );
    assert!(session.get_document("Modelica/package.mo").is_none());
}

#[test]
fn document_source_root_read_prewarm_matches_non_workspace_source_root_ownership() {
    let mut session = Session::default();
    session.replace_parsed_source_set(
        "workspace",
        SourceRootKind::Workspace,
        &files(&[("Workspace.mo", "model Workspace\nend Workspace;\n")]),
    );
    session.replace_parsed_source_set(
        "external",
        SourceRootKind::External,
        &files(&[("Lib/package.mo", "package Lib\nend Lib;\n")]),
    );

    assert!(session.needs_source_root_read_prewarm());
    assert!(!session.document_needs_source_root_read_prewarm("Workspace.mo"));
    assert!(session.document_needs_source_root_read_prewarm("Lib/package.mo"));

    let snapshot = session.snapshot();
    assert!(snapshot.needs_source_root_read_prewarm());
    assert!(!snapshot.document_needs_source_root_read_prewarm("Workspace.mo"));
    assert!(snapshot.document_needs_source_root_read_prewarm("Lib/package.mo"));
}

#[test]
fn source_root_read_prewarm_is_disabled_for_workspace_only_sessions() {
    let mut session = Session::default();
    session.replace_parsed_source_set(
        "workspace",
        SourceRootKind::Workspace,
        &files(&[("Workspace.mo", "model Workspace\nend Workspace;\n")]),
    );
    assert!(!session.needs_source_root_read_prewarm());
    let snapshot = session.snapshot();
    assert!(!snapshot.needs_source_root_read_prewarm());
}

#[test]
fn source_set_records_keep_stable_ids_and_revision_history() {
    let mut session = Session::default();
    let defs_v1 = files(&[(
        "lib/Lib.mo",
        "package Lib\n  model A\n    Real x;\n  end A;\nend Lib;\n",
    )]);
    let defs_v2 = files(&[(
        "lib/Lib.mo",
        "package Lib\n  model A\n    Real x;\n  equation\n    x = 1;\n  end A;\nend Lib;\n",
    )]);

    let inserted = session.replace_parsed_source_set("lib", SourceRootKind::External, &defs_v1);
    assert_eq!(inserted, 1, "first source-set load should insert one file");
    let first_record = session.source_set("lib").expect("source set should exist").clone();
    let first_id = first_record.id;
    let first_revision = first_record.revision;
    assert!(!first_record.uris.is_empty(), "source-set should track its files");

    let warm_inserted =
        session.replace_parsed_source_set("lib", SourceRootKind::External, &defs_v1);
    assert_eq!(warm_inserted, 1, "unchanged replacement still reports file count");
    let warm_record = session.source_set("lib").expect("source set should exist").clone();
    assert_eq!(
        warm_record.id, first_id,
        "unchanged source-set refresh must preserve the stable source-set id"
    );
    assert_eq!(
        warm_record.revision, first_revision,
        "unchanged source-set refresh must not bump the revision"
    );

    let updated = session.replace_parsed_source_set("lib", SourceRootKind::External, &defs_v2);
    assert_eq!(updated, 1, "changed source-set should still insert one file");
    let updated_record = session.source_set("lib").expect("source set should exist").clone();
    assert_eq!(
        updated_record.id, first_id,
        "source-set id should remain stable across replacements"
    );
    assert!(
        updated_record.revision > first_revision,
        "changing a source-set must bump its tracked revision"
    );

    session.remove_source_set("lib");
    let removed_record = session.source_set("lib").expect("source set should exist").clone();
    assert_eq!(
        removed_record.id, first_id,
        "source-set identity should survive removal for later reloads"
    );
    assert!(
        removed_record.uris.is_empty(),
        "removed source-set should no longer own any URIs"
    );
    let removed_revision = removed_record.revision;

    let reloaded = session.replace_parsed_source_set(
        "lib",
        SourceRootKind::External,
        &files(&[(
            "lib/Other.mo",
            "package Lib\n  model B\n    Real y;\n  end B;\nend Lib;\n",
        )]),
    );
    assert_eq!(reloaded, 1, "reloaded source-set should insert one file");
    let reloaded_record = session.source_set("lib").expect("source set should exist");
    assert_eq!(
        reloaded_record.id, first_id,
        "reloading a source-set with the same key should reuse the stable source-set id"
    );
    assert!(
        reloaded_record.revision > removed_revision,
        "reloading must advance the source-set revision"
    );
}

#[test]
fn query_helpers_expose_file_and_source_set_revisions() {
    let mut session = Session::default();
    let source_a = "model A\n  Real x;\nend A;\n";
    let source_b = "package B\n  model C\n    Real y;\n  end C;\nend B;\n";

    session.add_document("a.mo", source_a).expect("a source file should parse");
    session.add_document("b.mo", source_b).expect("b source file should parse");

    let id_a = session.file_id("a.mo").expect("file id should exist for a.mo");
    let id_b = session.file_id("b.mo").expect("file id should exist for b.mo");
    let rev_a = session.file_revision("a.mo").expect("file revision should exist for a.mo");
    let changed_after_default = session.changed_file_ids_since(RevisionId::default());
    assert!(
        changed_after_default.contains(&id_a),
        "changed_file_ids_since should include changed file ids"
    );
    assert!(
        changed_after_default.contains(&id_b),
        "changed_file_ids_since should include all changed file ids"
    );
    let changed_uris_after_default = session.changed_file_uris_since(RevisionId::default());
    assert!(
        changed_uris_after_default.contains(&"a.mo".to_string()),
        "changed_file_uris_since should include changed file URIs"
    );

    session.replace_parsed_source_set(
        "stdlib",
        SourceRootKind::DurableExternal,
        &files(&[(
            "lib/Lib.mo",
            "package Lib\n  model M\n    Real z;\n  end M;\nend Lib;\n",
        )]),
    );
    assert!(session.source_set_id("stdlib").is_some());
    assert!(session.source_set_revision("stdlib").is_some());
    let stdlib_record =
        session.source_set("stdlib").expect("durable source-set should be tracked");
    assert_eq!(stdlib_record.durability, SourceRootDurability::Durable);
    assert_eq!(
        session.source_set_file_ids("stdlib").len(),
        1,
        "source set helper should expose file ids"
    );
    let lib_file_id = session
        .source_set_file_ids("stdlib")
        .first()
        .copied()
        .expect("source set should expose file id");
    assert_ne!(
        lib_file_id, id_a,
        "external source-root ids should be distinct from workspace file ids"
    );
    let lib_file_uri =
        session.file_uri(lib_file_id).expect("file uri should be retrievable by id");
    assert_eq!(lib_file_uri, "lib/Lib.mo");

    let changed_after_source_set = session.changed_file_ids_since(rev_a);
    assert!(
        changed_after_source_set.contains(&lib_file_id),
        "external source-root load should be reported as a changed file id"
    );
    assert!(
        !changed_after_source_set.contains(&id_a),
        "files touched before the revision should not be reported as changed"
    );
    assert!(
        changed_after_source_set.contains(&id_b),
        "later-file changes should still be reported as changed"
    );
}

#[test]
fn files_that_leave_a_source_set_lose_their_documents() {
    let mut session = Session::default();
    let both = files(&[("l/A.mo", "model A end A;"), ("l/B.mo", "model B end B;")]);
    assert_eq!(session.replace_parsed_source_set("l", SourceRootKind::External, &both), 2);
    let id = session.file_id("l/A.mo");
    let one = files(&[("l/B.mo", "model B end B;")]);
    session.replace_parsed_source_set("l", SourceRootKind::External, &one);
    assert!(session.get_document("l/A.mo").is_none());
    assert_eq!(session.get_document("l/B.mo").unwrap().content, "model B end B;");
    assert_eq!(session.file_id("l/A.mo"), id);
    assert_eq!(session.current_revision, RevisionId::new(2));
    session.replace_parsed_source_set("l", SourceRootKind::External, &one);
    assert_eq!(session.current_revision, RevisionId::new(2));
    session.remove_source_set("l");
    session.remove_source_set("l");
    session.remove_source_set("other");
    assert_eq!(session.current_revision, RevisionId::new(3));
    assert!(session.get_document("l/B.mo").is_none());
    assert_eq!(session.source_set_id("other"), None);
    assert_eq!(session.file_uri(rumoca::session::store::FileId(9)), None);
}

#[test]
fn lookups_leave_other_files_warm() {
    let mut queries = QueryState::new();
    let mut session = Session::new();
    session.add_document("a.mo", "model A\nend A;\n").unwrap();
    session.add_document("b.mo", "model B\nend B;\n").unwrap();
    let snapshot = session.snapshot();
    assert!(document_symbols(&snapshot.documents, &mut queries, "a.mo").is_some());
    assert!(document_symbols(&snapshot.documents, &mut queries, "b.mo").is_some());
    assert!(document_symbols(&snapshot.documents, &mut queries, "c.mo").is_none());
    assert_eq!(queries.stats.document_symbol_query_misses, 2);
    // The second file did not push the first one out.
    assert!(document_symbols(&snapshot.documents, &mut queries, "a.mo").is_some());
    assert_eq!(queries.stats.document_symbol_query_hits, 1);
    assert_eq!(queries.files.len(), 2);
}

#[test]
fn workspace_searches_count_warm_and_cold_files() {
    let mut queries = QueryState::new();
    let mut session = Session::new();
    for (uri, text) in [
        ("a.mo", "model A\nend A;\n"),
        ("b.mo", "model B\nend B;\n"),
        ("c.mo", "model C\nend C;\n"),
    ] {
        session.add_document(uri, text).unwrap();
    }
    let snapshot = session.snapshot();
    assert!(document_symbols(&snapshot.documents, &mut queries, "b.mo").is_some());
    assert_eq!(workspace_symbol_search(&snapshot.documents, &mut queries, "").len(), 3);
    assert_eq!(queries.stats.file_item_index_query_hits, 1);
    assert_eq!(queries.stats.file_item_index_query_misses, 2);
    // A second search looks at no file.
    assert_eq!(workspace_symbol_search(&snapshot.documents, &mut queries, "B").len(), 1);
    assert_eq!(queries.stats.workspace_symbol_query_hits, 1);
    assert_eq!(queries.stats.file_item_index_query_hits, 1);
    // One changed outline is one file to look at anew.
    session.update_document("c.mo", "model D\nend D;\n");
    let snapshot = session.snapshot();
    assert_eq!(workspace_symbol_search(&snapshot.documents, &mut queries, "D").len(), 1);
    assert_eq!(queries.stats.workspace_symbol_query_misses, 2);
    assert_eq!(queries.stats.file_item_index_query_hits, 3);
    assert_eq!(queries.stats.file_item_index_query_misses, 3);
    assert_eq!(queries.files.len(), 3);
}
