use auto_commit::context::ChangeSet;
use auto_commit::context::MAX_DIFF_TOKENS;
use auto_commit::pipeline::preflight;
use auto_commit::pipeline::delivery_step;
use auto_commit::pipeline::DeliveryAction;
use auto_commit::pipeline::DeliveryEvent;
use auto_commit::pipeline::DeliveryFlags;
use auto_commit::pipeline::DeliveryState;
use auto_commit::pipeline::PipelineError;
use auto_commit::proposal::CommitProposal;
use auto_commit::protocol::build_request;
use auto_commit::protocol::choose_model;
use auto_commit::protocol::obtain_proposal;
use auto_commit::protocol::ToolInvocation;
use auto_commit::truncate_to_n_tokens;

#[test]
fn small_diff_stays_unmodified_and_renders_expected_message() {
    let context = "added function foo";
    assert_eq!(truncate_to_n_tokens(context, MAX_DIFF_TOKENS), context);
    let p = CommitProposal::new("Add foo function".to_string(), "Implements foo.".to_string());
    assert_eq!(p.to_string(), "Add foo function\n\nImplements foo.");
}

#[test]
fn empty_change_set_warns_but_proceeds() {
    let cs = ChangeSet::new(Vec::new(), String::new());
    assert!(cs.is_empty());
    let decision = preflight(true, true, cs.is_empty());
    assert_eq!(decision, Ok(true));
    let request = build_request(choose_model(None), cs.assemble_context(MAX_DIFF_TOKENS));
    assert_eq!(request.forced_tool, "commit");
}

#[test]
fn missing_credential_is_fatal_before_any_network_call() {
    assert_eq!(preflight(false, true, false), Err(PipelineError::Authentication));
    assert_eq!(preflight(false, false, true), Err(PipelineError::Authentication));
}

#[test]
fn outside_repository_is_fatal() {
    assert_eq!(preflight(true, false, false), Err(PipelineError::NotARepository));
}

#[test]
fn dry_run_prints_and_stops_without_mutation() {
    let flags = DeliveryFlags { dry_run: true, review: false, force: true };
    let (state, action) = delivery_step(DeliveryState::Proposed, &flags, DeliveryEvent::Begin);
    assert_eq!(state, DeliveryState::Printed);
    assert_eq!(action, DeliveryAction::EmitMessage);
}

#[test]
fn declined_confirmation_aborts_without_mutation() {
    let flags = DeliveryFlags { dry_run: false, review: false, force: false };
    let (state, action) = delivery_step(DeliveryState::Proposed, &flags, DeliveryEvent::Begin);
    assert_eq!(state, DeliveryState::AwaitingConfirmation);
    assert_eq!(action, DeliveryAction::AskConfirmation);
    let (state, action) = delivery_step(state, &flags, DeliveryEvent::Answered(false));
    assert_eq!(state, DeliveryState::Aborted);
    assert_eq!(action, DeliveryAction::ReportDecline);
}

#[test]
fn confirmed_or_forced_delivery_commits_once() {
    let forced = DeliveryFlags { dry_run: false, review: false, force: true };
    let (state, action) = delivery_step(DeliveryState::Proposed, &forced, DeliveryEvent::Begin);
    assert_eq!((state, action), (DeliveryState::Committing, DeliveryAction::RunCommit));
    let (state, action) = delivery_step(state, &forced, DeliveryEvent::MutationDone(true));
    assert_eq!((state, action), (DeliveryState::Committed, DeliveryAction::Finish));

    let plain = DeliveryFlags { dry_run: false, review: false, force: false };
    let (state, _) = delivery_step(DeliveryState::Proposed, &plain, DeliveryEvent::Begin);
    let (state, action) = delivery_step(state, &plain, DeliveryEvent::Answered(true));
    assert_eq!((state, action), (DeliveryState::Committing, DeliveryAction::RunCommit));
    let (state, action) = delivery_step(state, &plain, DeliveryEvent::MutationDone(false));
    assert_eq!((state, action), (DeliveryState::Failed, DeliveryAction::ReportFailure));
}

#[test]
fn choose_model_prefers_configuration() {
    assert_eq!(choose_model(Some("custom-model".to_string())), "custom-model");
    assert_eq!(choose_model(None), "gpt-4.1-nano");
}

#[test]
fn request_plan_forces_commit_tool_deterministically() {
    let request = build_request(choose_model(None), "ctx".to_string());
    assert_eq!(request.model, "gpt-4.1-nano");
    assert_eq!(request.conversation.context, "ctx");
    assert_eq!(request.conversation.context_tool_name, "get_diff");
    assert_eq!(request.conversation.context_call_id, "call_get_diff");
    assert_eq!(request.context_tool.name, "get_diff");
    assert_eq!(request.commit_tool.name, "commit");
    assert_eq!(request.forced_tool, "commit");
    assert_eq!(request.temperature_milli, 0);
    assert_eq!(request.max_output_tokens, 2000);
    assert!(request.commit_tool.parameters_schema.contains("\"title\""));
    assert!(request.commit_tool.parameters_schema.contains("\"description\""));
}

#[test]
fn context_assembly_lists_paths_then_diff() {
    let cs = ChangeSet::new(
        vec!["a.rs".to_string(), "b.rs".to_string()],
        "diff body".to_string(),
    );
    let ctx = cs.assemble_context(MAX_DIFF_TOKENS);
    assert_eq!(ctx, "Changed files: a.rs b.rs Diff: diff body");
}

#[test]
fn context_assembly_respects_token_budget() {
    let cs = ChangeSet::new(vec!["a.rs".to_string()], "one two three four five".to_string());
    let ctx = cs.assemble_context(5);
    assert_eq!(ctx, "Changed files: a.rs Diff: one");
    assert_eq!(cs.assemble_context(4), "Changed files: a.rs Diff:");
}

#[test]
fn forced_invocation_payload_is_parsed() {
    let calls = vec![
        ToolInvocation {
            name: "get_diff".to_string(),
            arguments: "{}".to_string(),
        },
        ToolInvocation {
            name: "commit".to_string(),
            arguments: "{\"title\":\"Add foo\",\"description\":\"Implements foo.\"}".to_string(),
        },
    ];
    let p = obtain_proposal(&calls, "commit").unwrap();
    assert_eq!(p.title, "Add foo");
    assert_eq!(p.description, "Implements foo.");
}

#[test]
fn malformed_payload_or_missing_invocation_fails() {
    let no_match = vec![ToolInvocation {
        name: "get_diff".to_string(),
        arguments: "{}".to_string(),
    }];
    assert!(matches!(
        obtain_proposal(&no_match, "commit"),
        Err(PipelineError::MalformedResponse)
    ));

    let bad_json = vec![ToolInvocation {
        name: "commit".to_string(),
        arguments: "{\"title\":\"x\"".to_string(),
    }];
    assert!(matches!(
        obtain_proposal(&bad_json, "commit"),
        Err(PipelineError::MalformedResponse)
    ));

    let missing_description = vec![ToolInvocation {
        name: "commit".to_string(),
        arguments: "{\"title\":\"x\"}".to_string(),
    }];
    assert!(matches!(
        obtain_proposal(&missing_description, "commit"),
        Err(PipelineError::MalformedResponse)
    ));
}

#[test]
fn error_messages_are_single_lines() {
    let errors = [
        PipelineError::RepositoryAccess,
        PipelineError::NotARepository,
        PipelineError::Authentication,
        PipelineError::RemoteUnavailable,
        PipelineError::MalformedResponse,
        PipelineError::UserDeclined,
        PipelineError::CommitMutation,
    ];
    for e in errors {
        let m = e.message();
        assert!(!m.is_empty());
        assert!(!m.contains('\n'));
    }
    assert_eq!(
        PipelineError::Authentication.message(),
        "Please set the OPENAI_API_KEY environment variable."
    );
    assert_eq!(PipelineError::UserDeclined.message(), "Aborted.");
}
