use canary::validator::{validate_proposal, validate_suggestion, PluginProposal, Suggestion};

#[test]
fn empty_name_rejected() {
    let proposal = PluginProposal {
        plugin_name: "test".to_string(),
        cfg_hash: "abc".to_string(),
        suggestions: vec![Suggestion::RenameSym {
            current_name: "var_8".to_string(),
            proposed_name: "".to_string(),
            rationale: "test".to_string(),
        }],
    };
    let results = validate_proposal(&proposal);
    assert!(!results[0].accepted);
}

#[test]
fn valid_rename_accepted() {
    let proposal = PluginProposal {
        plugin_name: "test".to_string(),
        cfg_hash: "abc".to_string(),
        suggestions: vec![Suggestion::RenameSym {
            current_name: "var_8".to_string(),
            proposed_name: "socket_fd".to_string(),
            rationale: "Used in socket syscall".to_string(),
        }],
    };
    let results = validate_proposal(&proposal);
    assert!(results[0].accepted);
}

#[test]
fn every_suggestion_gets_an_indexed_verdict() {
    let proposal = PluginProposal {
        plugin_name: "p".to_string(),
        cfg_hash: "h".to_string(),
        suggestions: vec![
            Suggestion::AddComment { text: "".to_string() },
            Suggestion::SuggestType,
            Suggestion::AddComment { text: "loop counter".to_string() },
            Suggestion::ProposeIdiom,
        ],
    };
    let results = validate_proposal(&proposal);
    assert_eq!(results.len(), 4);
    for (i, r) in results.iter().enumerate() {
        assert_eq!(r.suggestion_index, i);
    }
    assert!(!results[0].accepted);
    assert_eq!(results[0].rejection_reason.as_deref(), Some("Comment text is empty"));
    assert!(results[1].accepted && results[1].rejection_reason.is_none());
    assert!(results[2].accepted);
    assert!(results[3].accepted);
    let r = validate_suggestion(7, &Suggestion::RenameSym {
        current_name: "a".to_string(),
        proposed_name: String::new(),
        rationale: String::new(),
    });
    assert_eq!(r.suggestion_index, 7);
    assert_eq!(r.rejection_reason.as_deref(), Some("Proposed name is empty"));
}
