use std::collections::HashMap;
use sv2_roles_logic::channels::{
    AnyShare, ChannelState, ClientConnection, DifficultyManager, JobCacheWriter, JobWithCache,
    ShareValidationError, ShareValidationResult, SubmitSharesExtended, SubmitSharesStandard,
    JOB_CACHE_SIZE,
};
use sv2_roles_logic::messages::NewExtendedMiningJob;

fn job(job_id: u32, version: u32) -> JobWithCache {
    JobWithCache {
        job_generic: NewExtendedMiningJob {
            channel_id: 0,
            job_id,
            future_job: false,
            version,
            version_rolling_allowed: true,
            merkle_path: vec![],
            coinbase_tx_prefix: vec![],
            coinbase_tx_suffix: vec![],
        },
        merkle_root_cache: HashMap::new(),
    }
}

fn standard(channel_id: u32, job_id: u32) -> SubmitSharesStandard {
    SubmitSharesStandard {
        channel_id,
        sequence_number: 2,
        job_id,
        nonce: 4,
        ntime: 5,
        version: 6,
    }
}

fn extended(channel_id: u32, job_id: u32) -> SubmitSharesExtended {
    SubmitSharesExtended {
        channel_id,
        sequence_number: 2,
        job_id,
        nonce: 4,
        ntime: 5,
        version: 6,
        extranonce: vec![7, 8],
    }
}

fn accept(
    job: &JobWithCache,
    _share: AnyShare,
    height: u32,
) -> Result<ShareValidationResult, ShareValidationError> {
    let mut hash = [0; 32];
    hash[0] = job.job_generic.version as u8;
    hash[1] = height as u8;
    Ok(ShareValidationResult::Valid(hash))
}

fn refuse(
    _job: &JobWithCache,
    _share: AnyShare,
    _height: u32,
) -> Result<ShareValidationResult, ShareValidationError> {
    Err(ShareValidationError::Refused)
}

fn connection(w: &JobCacheWriter) -> ClientConnection {
    let mut c = ClientConnection::new();
    for channel_id in [1, 2] {
        c.add_channel(ChannelState {
            channel_id,
            user_identity: String::from("miner"),
            default_job_cache_reader: w.reader(),
            difficulty_manager: DifficultyManager { valid_shares: 10 },
            rollable_extranonce_size: 8,
        });
    }
    c
}

fn tally(c: &ClientConnection, channel_id: u32) -> u64 {
    c.channel(channel_id).unwrap().difficulty_manager.valid_shares
}

#[test]
fn shares_keep_their_fields() {
    let s = AnyShare::from(standard(1, 3));
    assert_eq!(
        (s.channel_id, s.sequence_number, s.job_id, s.nonce, s.ntime, s.version),
        (1, 2, 3, 4, 5, 6)
    );
    assert_eq!(s.extranonce, None);
    let e = AnyShare::from(extended(1, 3));
    assert_eq!(e.extranonce, Some(vec![7, 8]));
    assert_eq!(
        AnyShare {
            extranonce: None,
            ..e
        },
        s
    );
}

#[test]
fn the_newest_job_with_an_id_looks_at_a_share() {
    let mut w = JobCacheWriter::new(6, 50, [0; 32]);
    w.add_active_job(job(1, 11));
    w.add_active_job(job(2, 12));
    w.add_active_job(job(1, 13));
    let mut hash = [0; 32];
    hash[0] = 13;
    hash[1] = 50;
    let r = w
        .reader()
        .try_validate_share_with_func(&w, 1, AnyShare::from(standard(1, 1)), accept);
    assert_eq!(r, Ok(ShareValidationResult::Valid(hash)));
    w.update_tip(51, [1; 32]);
    hash[0] = 12;
    hash[1] = 51;
    let r = w
        .reader()
        .try_validate_share_with_func(&w, 2, AnyShare::from(standard(1, 2)), accept);
    assert_eq!(r, Ok(ShareValidationResult::Valid(hash)));
}

#[test]
fn a_share_for_no_job_is_refused() {
    let w = JobCacheWriter::new(6, 50, [0; 32]);
    let r = w
        .reader()
        .try_validate_share_with_func(&w, 1, AnyShare::from(standard(1, 1)), accept);
    assert_eq!(r, Err(ShareValidationError::InvalidJobId));
}

#[test]
fn the_oldest_job_is_dropped() {
    let mut w = JobCacheWriter::new(6, 50, [0; 32]);
    for i in 0..JOB_CACHE_SIZE as u32 {
        w.add_active_job(job(i, 0));
    }
    let share = || AnyShare::from(standard(1, 0));
    assert!(w.reader().try_validate_share_with_func(&w, 0, share(), accept).is_ok());
    w.add_active_job(job(1000, 0));
    let r = w.reader().try_validate_share_with_func(&w, 0, share(), accept);
    assert_eq!(r, Err(ShareValidationError::InvalidJobId));
    assert!(w.reader().try_validate_share_with_func(&w, 1, share(), accept).is_ok());
    assert!(w.reader().try_validate_share_with_func(&w, 1000, share(), accept).is_ok());
}

#[test]
fn valid_shares_are_counted() {
    let mut w = JobCacheWriter::new(6, 50, [0; 32]);
    w.add_active_job(job(3, 0));
    let mut c = connection(&w);
    c.handle_submit_share_standard(standard(1, 3), &w, accept);
    assert_eq!((tally(&c, 1), tally(&c, 2)), (11, 10));
    c.handle_submit_share_extended(extended(2, 3), &w, accept);
    assert_eq!((tally(&c, 1), tally(&c, 2)), (11, 11));
    // One that is refused, and one for no job.
    c.handle_submit_share_extended(extended(2, 3), &w, refuse);
    c._handle_submit_share(AnyShare::from(standard(1, 9)), &w, accept);
    assert_eq!((tally(&c, 1), tally(&c, 2)), (11, 11));
    c.tally_share(1, &Ok(ShareValidationResult::BlockFound([0; 32])));
    assert_eq!((tally(&c, 1), tally(&c, 2)), (12, 11));
    assert_eq!(c.channel(1).unwrap().user_identity, "miner");
    assert!(c.channel(3).is_none());
}

#[test]
fn the_id_of_a_job_is_read() {
    assert_eq!(job(77, 0).job_id(), 77);
}

#[test]
fn a_reader_sees_what_is_written_after_it_was_taken() {
    let mut w = JobCacheWriter::new(6, 50, [0; 32]);
    let reader = w.reader();
    let share = || AnyShare::from(standard(1, 8));
    let r = reader.try_validate_share_with_func(&w, 8, share(), accept);
    assert_eq!(r, Err(ShareValidationError::InvalidJobId));
    w.add_active_job(job(8, 21));
    w.update_tip(51, [1; 32]);
    w.add_active_job(job(8, 22));
    w.add_active_job(job(9, 23));
    w.update_tip(52, [2; 32]);
    let mut hash = [0; 32];
    hash[0] = 22;
    hash[1] = 52;
    let r = reader.try_validate_share_with_func(&w, 8, share(), accept);
    assert_eq!(r, Ok(ShareValidationResult::Valid(hash)));
    assert!(reader.is_reader_of(&w));
    assert!(!reader.is_reader_of(&JobCacheWriter::new(7, 50, [0; 32])));
    assert_eq!(w.source(), 6);
}
