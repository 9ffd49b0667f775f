use fold::pipeline::Push;
use fold::stream::{PipelineInitCtx, StoreError, Tx, WriteTx};

fn open(name: &str) -> fjall::SingleWriterTxDatabase {
    fjall::SingleWriterTxDatabase::builder(format!("/tmp/{name}")).temporary(true).open().unwrap()
}

#[test]
fn write_tx_reads_its_own_writes() {
    let db = open("fold_test_rw_db");
    let mut ctx = PipelineInitCtx::new(&db);
    let ks = ctx.keyspace("raw").unwrap();
    let mut tx = WriteTx::new(db.write_tx());
    assert_eq!(tx.get(&ks, b"k"), Ok(None));
    tx.insert(&ks, b"k", b"v1");
    assert_eq!(tx.get(&ks, b"k"), Ok(Some(b"v1".to_vec())));
    tx.insert(&ks, b"k", b"v2");
    assert_eq!(tx.get(&ks, b"k"), Ok(Some(b"v2".to_vec())));
    tx.remove(&ks, b"k");
    assert_eq!(tx.get(&ks, b"k"), Ok(None));
    assert!(tx.buf.is_empty());
}

#[test]
fn committed_writes_are_seen_by_later_transactions() {
    let db = open("fold_test_commit_db");
    let mut ctx = PipelineInitCtx::new(&db);
    let ks = ctx.keyspace("count").unwrap();
    let mut tx = WriteTx::new(db.write_tx());
    tx.insert(&ks, b"total", &2i64.to_be_bytes());
    assert_eq!(tx.commit(), Ok(()));
    let mut tx2 = WriteTx::new(db.write_tx());
    assert_eq!(tx2.get(&ks, b"total"), Ok(Some(2i64.to_be_bytes().to_vec())));
}

#[test]
fn keyspace_is_named_after_the_sink() {
    let db = open("fold_test_names_db");
    let mut ctx = PipelineInitCtx::new(&db);
    assert!(!ctx.is_claimed("raw"));
    let ks = ctx.keyspace("raw").unwrap();
    assert!(ctx.is_claimed("raw"));
    assert!(!ctx.is_claimed("uppers"));
    assert!(db.keyspace_exists("sink_raw"));
    assert!(!db.keyspace_exists("raw"));
    let mut tx = WriteTx::new(db.write_tx());
    tx.insert(&ks, b"x", b"1");
    let direct = db.keyspace("sink_raw", fjall::KeyspaceCreateOptions::default).unwrap();
    let mut tx_ref = tx;
    assert_eq!(tx_ref.get(&direct, b"x"), Ok(Some(b"1".to_vec())));
    let _ = StoreError::Storage;
}

struct Counter {
    net: i64,
}

impl Push<String> for Counter {
    fn init(&mut self, _init: &mut PipelineInitCtx<'_>) {}
    fn push(&mut self, _tx: &mut WriteTx<'_>, _data: &String, delta: isize) {
        self.net += delta as i64;
    }
}

#[test]
fn insert_and_remove_are_unit_deltas_that_cancel() {
    let db = open("fold_test_tx_db");
    let mut wtx = WriteTx::new(db.write_tx());
    let mut c = Counter { net: 0 };
    {
        let mut tx = Tx::new(&mut c, &mut wtx);
        for i in 0..10 {
            tx.push(&format!("{i}"), 1);
        }
        tx.insert(&"x".to_string());
        tx.push(&"y".to_string(), 3);
        tx.remove(&"x".to_string());
        tx.push(&"y".to_string(), -3);
    }
    assert_eq!(c.net, 10);
    {
        let mut tx = Tx::new(&mut c, &mut wtx);
        for i in 0..10 {
            tx.push(&format!("{i}"), -1);
        }
    }
    assert_eq!(c.net, 0);
}

#[test]
fn push_through_a_mutable_reference() {
    let db = open("fold_test_ref_db");
    let mut wtx = WriteTx::new(db.write_tx());
    let mut c = Counter { net: 0 };
    {
        let mut r = &mut c;
        let mut tx = Tx::new(&mut r, &mut wtx);
        tx.insert(&"a".to_string());
    }
    assert_eq!(c.net, 1);
}

#[test]
fn transaction_without_writes_commits() {
    let db = open("fold_test_empty_commit_db");
    let tx = WriteTx::new(db.write_tx());
    assert_eq!(tx.commit(), Ok(()));
}
