use uuid::Uuid;
use vibe_kanban::workspaces::{
    build_workspace_attachment_markdown, escape_markdown_label, find_unescaped_char,
    linked_task_id, normalize_prompt, parse_attachment_markdown_at,
    rewrite_imported_issue_attachments_markdown, unique_matching_task_id, validate_start_request,
    workspace_branch_label, ImportedAttachment, StartRequestError,
};

fn imported_file(attachment_id: Uuid, original_name: &str, file_path: &str) -> ImportedAttachment {
    ImportedAttachment {
        attachment_id: attachment_id.as_u128(),
        file_path: file_path.to_string(),
        original_name: original_name.to_string(),
    }
}

#[test]
fn infers_exactly_one_matching_local_issue_title() {
    let task_id = Uuid::new_v4();
    let tasks = vec![
        (Uuid::new_v4().as_u128(), "Other issue".to_string()),
        (task_id.as_u128(), "OSTP::Deploy Ops Pb".to_string()),
    ];

    assert_eq!(
        unique_matching_task_id(&tasks, "OSTP::Deploy Ops Pb"),
        Some(task_id.as_u128())
    );
}

#[test]
fn does_not_infer_ambiguous_local_issue_titles() {
    let tasks = vec![
        (Uuid::new_v4().as_u128(), "OSTP::Deploy Ops Pb".to_string()),
        (Uuid::new_v4().as_u128(), "OSTP::Deploy Ops Pb".to_string()),
    ];

    assert_eq!(unique_matching_task_id(&tasks, "OSTP::Deploy Ops Pb"), None);
}

#[test]
fn rewrites_imported_non_image_attachment_links() {
    let attachment_id = Uuid::new_v4();
    let prompt = format!("[proposal.pdf](attachment://{})", attachment_id);
    let imported = vec![imported_file(attachment_id, "proposal.pdf", "abc_proposal.pdf")];

    let rewritten = rewrite_imported_issue_attachments_markdown(&prompt, &imported);

    assert_eq!(rewritten, "[proposal.pdf](.vibe-attachments/abc_proposal.pdf)");
}

#[test]
fn preserves_authored_image_markdown_for_imported_images() {
    let attachment_id = Uuid::new_v4();
    let prompt = format!("![diagram.png](attachment://{})", attachment_id);
    let imported = vec![imported_file(attachment_id, "diagram.png", "xyz_diagram.png")];

    let rewritten = rewrite_imported_issue_attachments_markdown(&prompt, &imported);

    assert_eq!(rewritten, "![diagram.png](.vibe-attachments/xyz_diagram.png)");
}

#[test]
fn preserves_authored_link_markdown_for_imported_images() {
    let attachment_id = Uuid::new_v4();
    let prompt = format!("[diagram.png](attachment://{})", attachment_id);
    let imported = vec![imported_file(attachment_id, "diagram.png", "xyz_diagram.png")];

    let rewritten = rewrite_imported_issue_attachments_markdown(&prompt, &imported);

    assert_eq!(rewritten, "[diagram.png](.vibe-attachments/xyz_diagram.png)");
}

#[test]
fn preserves_authored_image_markdown_for_imported_non_images() {
    let attachment_id = Uuid::new_v4();
    let prompt = format!("![proposal.pdf](attachment://{})", attachment_id);
    let imported = vec![imported_file(attachment_id, "proposal.pdf", "abc_proposal.pdf")];

    let rewritten = rewrite_imported_issue_attachments_markdown(&prompt, &imported);

    assert_eq!(rewritten, "![proposal.pdf](.vibe-attachments/abc_proposal.pdf)");
}

#[test]
fn leaves_unknown_attachment_references_unchanged() {
    let prompt = format!("[proposal.pdf](attachment://{})", Uuid::new_v4());
    let imported = vec![imported_file(Uuid::new_v4(), "proposal.pdf", "abc_proposal.pdf")];

    let rewritten = rewrite_imported_issue_attachments_markdown(&prompt, &imported);

    assert_eq!(rewritten, prompt);
}

#[test]
fn rewrites_multiple_attachments_and_leaves_other_links_alone() {
    let image_attachment_id = Uuid::new_v4();
    let file_attachment_id = Uuid::new_v4();
    let prompt = format!(
        "See [doc.pdf](attachment://{}) and ![shot.png](attachment://{}). https://example.com",
        file_attachment_id, image_attachment_id
    );
    let imported = vec![
        imported_file(file_attachment_id, "doc.pdf", "doc_file.pdf"),
        imported_file(image_attachment_id, "shot.png", "shot_file.png"),
    ];

    let rewritten = rewrite_imported_issue_attachments_markdown(&prompt, &imported);

    assert_eq!(
        rewritten,
        "See [doc.pdf](.vibe-attachments/doc_file.pdf) and ![shot.png](.vibe-attachments/shot_file.png). https://example.com"
    );
}

#[test]
fn labels_are_escaped_and_empty_labels_fall_back_to_the_file_name() {
    assert_eq!(escape_markdown_label("a[b]c\\"), "a\\[b\\]c\\\\");
    let att = ImportedAttachment {
        attachment_id: 1,
        file_path: "f_x.txt".into(),
        original_name: "x [1].txt".into(),
    };
    assert_eq!(
        build_workspace_attachment_markdown(&att, "", false),
        "[x \\[1\\].txt](.vibe-attachments/f_x.txt)"
    );
    assert_eq!(
        build_workspace_attachment_markdown(&att, "shown", true),
        "![shown](.vibe-attachments/f_x.txt)"
    );
}

#[test]
fn escaped_brackets_do_not_end_a_label() {
    assert_eq!(find_unescaped_char("a\\]b]c", ']'), Some(4));
    assert_eq!(find_unescaped_char("abc", ']'), None);
    let id = Uuid::new_v4();
    let prompt = format!("x [a\\]b](attachment://{}) y", id);
    let parsed = parse_attachment_markdown_at(&prompt, 2).unwrap();
    assert_eq!(parsed.attachment_id, id.as_u128());
    assert!(!parsed.uses_image_markdown);
    assert!(parse_attachment_markdown_at(&prompt, 0).is_none());
    assert!(parse_attachment_markdown_at("[a](attachment://not-a-uuid)", 0).is_none());
}

#[test]
fn start_requests_need_a_prompt_and_a_repository() {
    assert_eq!(normalize_prompt("  hi \n"), Some("hi".to_string()));
    assert_eq!(normalize_prompt(" \t"), None);
    assert_eq!(
        validate_start_request("   ", 1),
        Err(StartRequestError::PromptRequired)
    );
    assert_eq!(
        validate_start_request("go", 0),
        Err(StartRequestError::RepositoryRequired)
    );
    assert_eq!(validate_start_request(" go ", 2), Ok("go".to_string()));
    assert_eq!(workspace_branch_label(Some("")), "workspace");
    assert_eq!(workspace_branch_label(Some("feat")), "feat");
    assert_eq!(linked_task_id(false, Some((1, 2)), 2), Some(1));
    assert_eq!(linked_task_id(true, Some((1, 2)), 2), None);
    assert_eq!(linked_task_id(false, Some((1, 3)), 2), None);
}
