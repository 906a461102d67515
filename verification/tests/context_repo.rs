use orga::memory::context_repo::{
    extract_frontmatter_description, ContextRepository, DefragReport, MemoryFile,
};

const OVERVIEW: &str = "---\ndescription: Board overview and active context\n---\n\n# Overview\n\nThis is the agent context repository. Update this file with board-level project context.\n";

fn note(path: &str, content: &str) -> MemoryFile {
    MemoryFile { path: path.into(), content: content.into() }
}

fn repo_with(extra: Vec<MemoryFile>) -> ContextRepository {
    let mut files = vec![note("system/overview.md", OVERVIEW)];
    files.extend(extra);
    ContextRepository::new("/tmp/memory".into(), "test-agent".into(), files)
}

#[test]
fn listing_holds_the_overview_with_its_description() {
    let repo = repo_with(vec![]);
    let entries = repo.list();
    let overview = entries.iter().find(|e| e.path == "system/overview.md").unwrap();
    assert_eq!(overview.description, "Board overview and active context");
}

#[test]
fn listing_is_sorted_by_path() {
    let repo = repo_with(vec![note("b.md", "x"), note("a/z.md", "y"), note("a.md", "z")]);
    let paths: Vec<String> = repo.list().into_iter().map(|e| e.path).collect();
    assert_eq!(paths, vec!["a.md", "a/z.md", "b.md", "system/overview.md"]);
    assert_eq!(repo.root(), "/tmp/memory");
    assert_eq!(repo.agent_name(), "test-agent");
}

#[test]
fn listing_note_without_frontmatter_has_empty_description() {
    let repo = repo_with(vec![note("plain.md", "no frontmatter here")]);
    let entries = repo.list();
    let plain = entries.iter().find(|e| e.path == "plain.md").unwrap();
    assert_eq!(plain.description, "");
}

#[test]
fn frontmatter_description_is_trimmed() {
    assert_eq!(extract_frontmatter_description("---\ndescription:   Auth patterns  \n---\nbody"), "Auth patterns");
    assert_eq!(extract_frontmatter_description("---\ntitle: x\n---\n"), "");
    assert_eq!(extract_frontmatter_description("description: outside\n"), "");
}

#[test]
fn search_finds_matches_case_insensitive() {
    let repo = repo_with(vec![note("themes/auth.md", "JWT tokens are used everywhere.")]);
    let results = repo.search("jwt");
    assert!(results.iter().any(|(path, _, line)| path == "themes/auth.md" && line.contains("JWT")));
}

#[test]
fn search_reports_line_numbers_from_one() {
    let repo = repo_with(vec![note("n.md", "first\nsecond Match\nthird match")]);
    let results = repo.search("MATCH");
    assert_eq!(
        results,
        vec![
            ("n.md".to_string(), 2, "second Match".to_string()),
            ("n.md".to_string(), 3, "third match".to_string()),
        ]
    );
}

#[test]
fn search_returns_empty_for_no_match() {
    let repo = repo_with(vec![]);
    assert!(repo.search("zzz_no_match_zzz").is_empty());
}

#[test]
fn delete_allowed_when_terms_covered_elsewhere() {
    let repo = repo_with(vec![
        note("themes/auth.md", "---\ndescription: Auth patterns JWT tokens\n---\n\nAuth content."),
        note("themes/auth-notes.md", "---\ndescription: Auth investigation notes\n---\n\nMore auth notes."),
    ]);
    let content = "---\ndescription: Auth investigation notes\n---\n\nMore auth notes.";
    assert!(repo.check_delete("themes/auth-notes.md", content).is_ok());
}

#[test]
fn delete_blocked_when_terms_unique() {
    let content = "---\ndescription: Webhook retry backoff\n---\n\nContent.";
    let repo = repo_with(vec![note("themes/obscure.md", content)]);
    let result = repo.check_delete("themes/obscure.md", content);
    let msg = result.unwrap_err().message();
    assert!(msg.contains("cannot delete"));
    assert_eq!(
        msg,
        "backend error: cannot delete 'themes/obscure.md': no other file covers its topics (description terms: backoff, retry, webhook)"
    );
}

#[test]
fn delete_allowed_when_no_frontmatter() {
    let repo = repo_with(vec![note("plain.md", "no frontmatter here")]);
    assert!(repo.check_delete("plain.md", "no frontmatter here").is_ok());
}

#[test]
fn delete_allowed_when_empty_description() {
    let content = "---\ndescription: \n---\n\nContent.";
    let repo = repo_with(vec![note("empty-desc.md", content)]);
    assert!(repo.check_delete("empty-desc.md", content).is_ok());
}

#[test]
fn analyze_detects_oversized_file() {
    let big_content = format!("---\ndescription: Big file\n---\n\n{}", "line\n".repeat(210));
    let repo = repo_with(vec![note("big.md", &big_content)]);
    let report = repo.analyze();
    assert!(report.oversized.iter().any(|f| f.path == "big.md" && f.line_count > 200));
}

#[test]
fn analyze_detects_duplicate_pair() {
    let repo = repo_with(vec![
        note("themes/auth.md", "---\ndescription: Auth JWT tokens patterns\n---\n\nContent."),
        note("themes/auth2.md", "---\ndescription: Auth JWT tokens investigation\n---\n\nContent."),
    ]);
    let report = repo.analyze();
    assert!(report.duplicates.iter().any(|d| (d.path_a == "themes/auth.md" && d.path_b == "themes/auth2.md")
        || (d.path_a == "themes/auth2.md" && d.path_b == "themes/auth.md")));
}

#[test]
fn analyze_detects_deletion_candidate() {
    let repo = repo_with(vec![
        note(
            "themes/auth.md",
            "---\ndescription: Auth JWT tokens patterns\n---\n\nAuth JWT tokens patterns and auth notes covered here.",
        ),
        note("themes/notes.md", "---\ndescription: Auth notes\n---\n\nJust notes."),
    ]);
    let report = repo.analyze();
    assert!(report.deletion_candidates.iter().any(|c| c.path == "themes/notes.md"));
}

#[test]
fn analyze_empty_repo_report_is_empty() {
    let repo = repo_with(vec![]);
    let report: DefragReport = repo.analyze();
    assert!(report.oversized.is_empty());
    assert!(report.duplicates.is_empty());
    assert!(report.is_empty());
}

#[test]
fn system_files_are_the_pinned_notes() {
    let repo = repo_with(vec![note("system/team.md", "team"), note("system/deep/x.md", "deep"), note("other.md", "o")]);
    let pinned: Vec<String> = repo.system_files().into_iter().map(|(p, _)| p).collect();
    assert_eq!(pinned, vec!["system/overview.md", "system/team.md"]);
}

#[test]
fn stats_count_files_and_whole_kib() {
    let repo = repo_with(vec![note("a.md", "x")]);
    let stats = repo.repo_stats(&[1000, 2100]);
    assert_eq!(stats.file_count, 2);
    assert_eq!(stats.total_size_kb, 3);
}

#[test]
fn report_entries_are_as_described() {
    let repo = repo_with(vec![
        note("themes/auth.md", "---\ndescription: Auth JWT tokens patterns\n---\n\nAuth JWT tokens patterns and auth notes."),
        note("themes/auth2.md", "---\ndescription: Auth JWT tokens investigation\n---\n\nContent."),
        note("themes/notes.md", "---\ndescription: Auth notes\n---\n\nJust notes."),
    ]);
    let report = repo.analyze();
    assert_eq!(report.duplicates.len(), 1);
    let pair = &report.duplicates[0];
    assert_eq!(pair.path_a, "themes/auth.md");
    assert_eq!(pair.path_b, "themes/auth2.md");
    assert_eq!(pair.shared_terms, vec!["auth", "jwt", "tokens"]);
    assert!(report.oversized.is_empty());
    for c in &report.deletion_candidates {
        assert_ne!(c.path, c.covered_by);
    }
    assert!(report.deletion_candidates.iter().any(|c| c.path == "themes/notes.md" && c.covered_by == "themes/auth.md"));
}

#[test]
fn repository_keeps_notes_once_in_path_order() {
    let repo = ContextRepository::new(
        "/m".into(),
        "bot".into(),
        vec![note("b.md", "first b"), note("readme.txt", "not a note"), note("a.md", "a"), note("b.md", "second b")],
    );
    let paths: Vec<String> = repo.list().into_iter().map(|e| e.path).collect();
    assert_eq!(paths, vec!["a.md", "b.md"]);
    let hits = repo.search("b");
    assert!(hits.iter().all(|(p, _, line)| p == "b.md" && line == "first b"));
    assert!(!hits.is_empty());
}
