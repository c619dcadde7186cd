use vote_tally::commands::{Batch, TxOnly};

#[test]
fn batch_runs_its_tx_only_command() {
    let tx = TxOnly { args: vec!["--count".to_string(), "10".to_string()] };
    let batch = Batch::TxOnly(tx.clone());
    assert_eq!(batch.exec(), &tx);
}
