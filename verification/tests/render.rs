use plan_env_md::client::{Answer, AnsweredOption, AnsweredQuestion, DocumentSummary, ProjectSummary};
use plan_env_md::render::{age, documents, epoch, moment, projects, questions, size};

fn at(stamp: &str) -> i64 {
    epoch(stamp).expect("a readable stamp")
}

#[test]
fn ages_are_relative_and_moments_are_absolute() {
    let now = at("2026-08-23 20:00:00");
    assert_eq!(age("2026-08-23 19:07:50", now), "52m");
    assert_eq!(age("2026-08-23 12:00:00", now), "8h");
    assert_eq!(age("2026-08-20 20:00:00", now), "3d");
    assert_eq!(age("2026-08-01 20:00:00", now), "3w");
    assert_eq!(moment("2026-08-21 16:54:19"), "21 Aug 16:54");
    assert_eq!(size(27_823), "27.2 KB");
}

#[test]
fn an_unreadable_stamp_is_passed_through() {
    assert_eq!(age("soon", 0), "soon");
    assert_eq!(moment("soon"), "soon");
}

fn document(slug: &str, project: &str, answered: i64, total: i64) -> DocumentSummary {
    DocumentSummary {
        id: "KPQgKFWuIX".to_string(),
        slug: slug.to_string(),
        title: Some("Dashboard: list and grid".to_string()),
        project: Some(project.to_string()),
        tags: vec!["mockup".to_string()],
        published: false,
        revision_count: 1,
        latest_revision: 1,
        questions_total: total,
        questions_answered: answered,
        last_pushed_at: "2026-08-23 15:25:43".to_string(),
        created_at: "2026-08-23 15:25:43".to_string(),
        updated_at: "2026-08-23 15:25:43".to_string(),
        url: "https://plan.env.md/KPQgKFWuIX/plan-env-md-dashboard-grid-views".to_string(),
    }
}

#[test]
fn a_list_of_one_project_drops_the_project_column() {
    let now = at("2026-08-23 20:00:00");
    let rendered = documents(
        &[document("a-plan", "plan-env-md", 3, 3), document("b-plan", "plan-env-md", 0, 0)],
        "https://plan.env.md/",
        now,
    );
    assert!(rendered.starts_with("2 documents in plan-env-md, newest first."));
    assert!(!rendered.contains("  plan-env-md  "));
    assert!(rendered.contains("KPQgKFWuIX/a-plan  Dashboard: list and grid"));
    // no questions reads as nothing to chase, which "0/0" does not
    assert!(rendered.lines().last().expect("a row").contains(" -    "));
}

#[test]
fn a_list_of_several_projects_keeps_the_column() {
    let now = at("2026-08-23 20:00:00");
    let rendered = documents(
        &[document("a-plan", "plan-env-md", 3, 3), document("b-plan", "gitgui", 1, 2)],
        "https://plan.env.md/",
        now,
    );
    assert!(rendered.starts_with("2 documents, newest first."));
    assert!(rendered.contains("gitgui"));
    assert!(rendered.contains("1/2"));
}

#[test]
fn a_project_shows_its_aliases_and_whether_it_has_an_icon() {
    let rendered = projects(
        &[ProjectSummary {
            slug: "open-lavatory".to_string(),
            aliases: vec!["openlv".to_string()],
            document_count: 16,
            last_pushed_at: Some("2026-08-23 12:00:00".to_string()),
            has_favicon_light: true,
            has_favicon_dark: false,
        }],
        at("2026-08-23 20:00:00"),
    );
    assert!(rendered.contains("open-lavatory (openlv)"));
    assert!(rendered.contains("16"));
    assert!(rendered.ends_with("8h         light"));
}

fn question(key: &str, answer: Option<Answer>) -> AnsweredQuestion {
    AnsweredQuestion {
        key: key.to_string(),
        prompt: "Which grid?".to_string(),
        anchor: None,
        options: vec![
            AnsweredOption {
                value: "a".to_string(),
                label: "A, contact sheet".to_string(),
                detail: Some("A tradeoff nobody needs once the choice is made".to_string()),
            },
            AnsweredOption {
                value: "b".to_string(),
                label: "B, two columns".to_string(),
                detail: None,
            },
        ],
        answer,
    }
}

#[test]
fn an_answered_question_drops_the_options_the_reader_rejected() {
    let rendered = questions(&[question(
        "variation",
        Some(Answer {
            selected: vec!["a".to_string()],
            other_text: None,
            notes: None,
            answered_at: "2026-08-23 16:09:12".to_string(),
        }),
    )]);
    assert!(rendered.starts_with("1 of 1 questions answered"));
    assert!(rendered.contains("a  (A, contact sheet)  23 Aug 16:09"));
    assert!(!rendered.contains("B, two columns"));
    assert!(!rendered.contains("A tradeoff nobody needs"));
}

#[test]
fn free_text_and_notes_survive() {
    let rendered = questions(&[question(
        "variation",
        Some(Answer {
            selected: vec!["other".to_string()],
            other_text: Some("i like all of them, do em all".to_string()),
            notes: Some("query one project by default".to_string()),
            answered_at: "2026-08-23 16:09:12".to_string(),
        }),
    )]);
    assert!(rendered.contains("other: \"i like all of them, do em all\""));
    assert!(rendered.contains("note: \"query one project by default\""));
}

#[test]
fn an_open_question_keeps_its_option_values() {
    let rendered = questions(&[question("variation", None)]);
    assert!(rendered.starts_with("0 of 1 questions answered"));
    assert!(rendered.contains("Which grid?  [open]"));
    assert!(rendered.contains("a | b"));
}

#[test]
fn sizes_match_floating_point_formatting() {
    let mut samples: Vec<i64> = (0..5000).collect();
    samples.extend([1280, 1_048_576, 27_823, 9_007_199_254_740_993, i64::MAX, 123_456_789_012_345_678]);
    for bytes in [1i64 << 53, (1i64 << 54) + 3, (1i64 << 60) + 12345] {
        samples.push(bytes);
    }
    for bytes in samples {
        let expected = if bytes < 1_024 {
            format!("{bytes} B")
        } else {
            format!("{:.1} KB", bytes as f64 / 1_024.0)
        };
        assert_eq!(size(bytes), expected, "size of {bytes}");
    }
}
