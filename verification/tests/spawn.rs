use sandbox_shell_mcp::spawn::{SpawnNext, SpawnStage};

fn run(causes: [Option<&str>; 4]) -> Result<(), String> {
    let mut stage = SpawnStage::first();
    for cause in causes {
        let outcome = match cause {
            Some(cause) => Err(cause.to_string()),
            None => Ok(()),
        };
        match stage.advance(outcome) {
            SpawnNext::Go(next) => stage = next,
            SpawnNext::Ready { session_id } => {
                assert!(session_id.starts_with("pty-"));
                return Ok(());
            }
            SpawnNext::Fail(reason) => return Err(reason),
        }
    }
    panic!("the last step has no successor");
}

#[test]
fn all_steps_succeed() {
    assert_eq!(run([None, None, None, None]), Ok(()));
}

#[test]
fn each_failure_names_its_step() {
    let fail = |reason: &str| Err(reason.to_string());
    assert_eq!(run([Some("e"), None, None, None]), fail("failed to open PTY: e"));
    assert_eq!(run([None, Some("e"), None, None]), fail("failed to spawn: e"));
    assert_eq!(run([None, None, Some("e"), None]), fail("reader: e"));
    assert_eq!(run([None, None, None, Some("e")]), fail("writer: e"));
}

#[test]
fn the_first_failure_counts() {
    assert_eq!(
        run([None, Some("first"), Some("second"), Some("third")]),
        Err("failed to spawn: first".to_string())
    );
}

#[test]
fn steps_follow_in_order() {
    assert_eq!(SpawnStage::first(), SpawnStage::OpenPty);
    assert!(matches!(
        SpawnStage::OpenPty.advance(Ok(())),
        SpawnNext::Go(SpawnStage::SpawnCommand)
    ));
    assert!(matches!(
        SpawnStage::SpawnCommand.advance(Ok(())),
        SpawnNext::Go(SpawnStage::CloneReader)
    ));
    assert!(matches!(
        SpawnStage::CloneReader.advance(Ok(())),
        SpawnNext::Go(SpawnStage::TakeWriter)
    ));
    assert!(matches!(SpawnStage::TakeWriter.advance(Ok(())), SpawnNext::Ready { .. }));
}
