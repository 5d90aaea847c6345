use fault_proof::executor::{ExecutorError, KonaExecutor, StatelessBuilder};
use fault_proof::primitives::B256;

#[derive(Debug, PartialEq, Eq)]
struct CountingBuilder {
    chain: u64,
    parent: u64,
    built: u64,
}

impl StatelessBuilder for CountingBuilder {
    type Config = u64;
    type Header = u64;
    type Attributes = bool;
    type Outcome = u64;
    type Error = String;

    fn anchored_at(config: &u64, header: &u64) -> Self {
        CountingBuilder { chain: *config, parent: *header, built: 0 }
    }

    fn build_block(&mut self, attributes: bool) -> Result<u64, String> {
        if !attributes {
            return Err("bad attributes".to_string());
        }
        self.built += 1;
        Ok(self.parent + self.built)
    }

    fn compute_output_root(&mut self) -> Result<B256, String> {
        if self.built == 0 {
            return Err("nothing built".to_string());
        }
        Ok(B256::new([(self.chain + self.parent + self.built) as u8; 32]))
    }
}

#[test]
fn executor_without_safe_head_is_missing() {
    let mut executor: KonaExecutor<CountingBuilder> = KonaExecutor::new(7);
    executor.wait_until_ready();
    assert!(!executor.is_ready());
    assert_eq!(executor.execute_payload(true), Err(ExecutorError::MissingExecutor));
    assert_eq!(executor.compute_output_root(), Err(ExecutorError::MissingExecutor));
    assert!(!executor.is_ready());
}

#[test]
fn executor_builds_on_the_safe_head() {
    let mut executor: KonaExecutor<CountingBuilder> = KonaExecutor::new(7);
    executor.update_safe_head(20);
    assert!(executor.is_ready());
    assert_eq!(executor.execute_payload(true), Ok(21));
    assert_eq!(executor.execute_payload(true), Ok(22));
    assert_eq!(executor.compute_output_root(), Ok(B256::new([29; 32])));
}

#[test]
fn executor_passes_builder_failures_on() {
    let mut executor: KonaExecutor<CountingBuilder> = KonaExecutor::new(7);
    executor.update_safe_head(20);
    assert_eq!(
        executor.compute_output_root(),
        Err(ExecutorError::Builder("nothing built".to_string()))
    );
    assert_eq!(
        executor.execute_payload(false),
        Err(ExecutorError::Builder("bad attributes".to_string()))
    );
    assert!(executor.is_ready());
    assert_eq!(executor.execute_payload(true), Ok(21));
}

#[test]
fn new_safe_head_replaces_the_builder() {
    let mut executor: KonaExecutor<CountingBuilder> = KonaExecutor::new(7);
    executor.update_safe_head(20);
    assert_eq!(executor.execute_payload(true), Ok(21));
    executor.update_safe_head(21);
    // The fresh builder has built nothing yet.
    assert_eq!(
        executor.compute_output_root(),
        Err(ExecutorError::Builder("nothing built".to_string()))
    );
    assert_eq!(executor.execute_payload(true), Ok(22));
    executor.update_safe_head(21);
    assert_eq!(executor.execute_payload(true), Ok(22));
}

#[test]
fn builder_result_wraps_failures() {
    assert_eq!(KonaExecutor::<CountingBuilder>::builder_result(Ok(3u8)), Ok(3u8));
    assert_eq!(
        KonaExecutor::<CountingBuilder>::builder_result::<u8>(Err("x".to_string())),
        Err(ExecutorError::Builder("x".to_string()))
    );
}
