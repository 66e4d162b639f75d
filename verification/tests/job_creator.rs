use sv2_roles_logic::coinbase::{
    coinbase, coinbase_tx_prefix, coinbase_tx_suffix, get_bip_34_bytes, new_extended_job,
};
use sv2_roles_logic::errors::RolesError;
use sv2_roles_logic::job_creator::{tx_outputs_to_costum_scripts, JobsCreators};
use sv2_roles_logic::merkle::merkle_root_from_path;
use sv2_roles_logic::messages::{
    to_b064k, to_u256, NewExtendedMiningJob, NewTemplate, SetNewPrevHash, Target,
};
use sv2_roles_logic::stripped_coinbase::{
    extended_job_to_non_segwit, strip_job, try_extended_job_to_non_segwit, StrippedCoinbaseTx,
};
use sv2_roles_logic::transaction::{OutPoint, Transaction, TxIn, TxOut};

const BLOCK_REWARD: u64 = 625_000_000_000;

fn own_transaction(tx: &bitcoin::Transaction) -> Transaction {
    Transaction {
        version: tx.version,
        lock_time: tx.lock_time,
        input: tx
            .input
            .iter()
            .map(|i| TxIn {
                previous_output: OutPoint {
                    txid: bitcoin::hashes::Hash::into_inner(i.previous_output.txid),
                    vout: i.previous_output.vout,
                },
                script_sig: i.script_sig.to_bytes(),
                sequence: i.sequence,
                witness: i.witness.clone(),
            })
            .collect(),
        output: tx
            .output
            .iter()
            .map(|o| TxOut {
                value: o.value,
                script_pubkey: o.script_pubkey.to_bytes(),
            })
            .collect(),
    }
}

fn template(template_id: u64) -> NewTemplate {
    NewTemplate {
        template_id,
        future_template: true,
        version: 0x2000_0000,
        coinbase_tx_version: 2,
        coinbase_prefix: vec![3, 1, 2, 3, 0],
        coinbase_tx_input_sequence: 0xffff_fffe,
        coinbase_tx_value_remaining: BLOCK_REWARD,
        coinbase_tx_outputs_count: 0,
        coinbase_tx_outputs: vec![],
        coinbase_tx_locktime: 17,
        merkle_path: vec![[5; 32], [6; 32]],
    }
}

fn out() -> TxOut {
    TxOut {
        value: BLOCK_REWARD,
        script_pubkey: vec![0x51],
    }
}

fn prev_hash(template_id: u64) -> SetNewPrevHash {
    SetNewPrevHash {
        template_id,
        prev_hash: [45; 32],
        header_timestamp: 0,
        n_bits: 0,
        target: [0; 32],
    }
}

fn encoded_out(value: u64, script: Vec<u8>) -> Vec<u8> {
    bitcoin::consensus::encode::serialize(&bitcoin::TxOut {
        value,
        script_pubkey: script.into(),
    })
}

// test that witness stripped tx id matches that of the txid of the coinbase
#[test]
fn stripped_tx_id() {
    let encoded: &[u8] = &[
        2, 0, 0, 0, 0, 1, 1, 0, 0, 0, 0, 0, 0, 0, 0, 0, 0, 0, 0, 0, 0, 0, 0, 0, 0, 0, 0, 0, 0,
        0, 0, 0, 0, 0, 0, 0, 0, 0, 0, 255, 255, 255, 255, 36, 2, 107, 22, 0, 0, 0, 0, 0, 0, 0,
        0, 0, 0, 0, 0, 0, 0, 0, 0, 0, 0, 0, 0, 0, 0, 0, 0, 0, 0, 0, 0, 0, 0, 0, 0, 0, 255, 255,
        255, 255, 2, 0, 0, 0, 0, 0, 0, 0, 0, 67, 65, 4, 70, 109, 127, 202, 229, 99, 229, 203,
        9, 160, 209, 135, 11, 181, 128, 52, 72, 4, 97, 120, 121, 161, 73, 73, 207, 34, 40, 95,
        27, 174, 63, 39, 103, 40, 23, 108, 60, 100, 49, 248, 238, 218, 69, 56, 220, 55, 200,
        101, 226, 120, 79, 58, 158, 119, 208, 68, 243, 62, 64, 119, 151, 225, 39, 138, 172, 0,
        0, 0, 0, 0, 0, 0, 0, 38, 106, 36, 170, 33, 169, 237, 226, 246, 28, 63, 113, 209, 222,
        253, 63, 169, 153, 223, 163, 105, 83, 117, 92, 105, 6, 137, 121, 153, 98, 180, 139,
        235, 216, 54, 151, 78, 140, 249, 1, 32, 0, 0, 0, 0, 0, 0, 0, 0, 0, 0, 0, 0, 0, 0, 0, 0,
        0, 0, 0, 0, 0, 0, 0, 0, 0, 0, 0, 0, 0, 0, 0, 0, 0, 0, 0, 0,
    ];
    let coinbase: bitcoin::Transaction =
        bitcoin::util::psbt::serialize::Deserialize::deserialize(encoded).unwrap();
    let stripped = StrippedCoinbaseTx::from_coinbase(own_transaction(&coinbase), 32).unwrap();
    let prefix = stripped.into_coinbase_tx_prefix().unwrap();
    let suffix = stripped.into_coinbase_tx_suffix().unwrap();
    let extranonce = &[0_u8; 32];
    let path: &[[u8; 32]] = &[];
    let stripped_merkle_root =
        merkle_root_from_path(&prefix[..], &suffix[..], extranonce, path).unwrap();
    let og_merkle_root = coinbase.txid().to_vec();
    assert!(
        stripped_merkle_root == og_merkle_root,
        "stripped tx hash is not the same as bitcoin crate"
    );
}

#[test]
fn a_job_leads_back_to_its_template() {
    let template = template(41);
    let mut jobs_creators = JobsCreators::new(32);
    let job = jobs_creators
        .on_new_template(&template, false, vec![out()])
        .unwrap();
    assert_eq!(
        jobs_creators.get_template_id_from_job(job.job_id),
        Some(template.template_id)
    );
    assert_eq!(jobs_creators.get_job_id_from_template(41), Some(job.job_id));
    // Assert returns non if no match
    assert_eq!(jobs_creators.get_template_id_from_job(70), None);
    assert_eq!(jobs_creators.get_job_id_from_template(40), None);
    assert_eq!(jobs_creators.get_job_id_from_template(u64::MAX), None);
}

#[test]
fn jobs_are_numbered() {
    let mut jobs_creators = JobsCreators::new(32);
    for i in 1..=3u32 {
        let job = jobs_creators
            .on_new_template(&template(7), false, vec![out()])
            .unwrap();
        assert_eq!(job.job_id, i);
        assert_eq!(jobs_creators.get_job_id_from_template(7), Some(i));
    }
    assert_eq!(jobs_creators.get_template_id_from_job(1), Some(7));
    assert_eq!(jobs_creators.count_templates(7), 3);
}

#[test]
fn templates_can_be_reset() {
    let mut jobs_creators = JobsCreators::new(32);
    assert_eq!(jobs_creators.lasts_new_template().len(), 0);

    let _ = jobs_creators.on_new_template(&template(9), false, vec![out()]);
    assert_eq!(jobs_creators.lasts_new_template().len(), 1);
    assert_eq!(jobs_creators.lasts_new_template()[0], template(9));

    jobs_creators.reset_new_templates(Some(template(8)));
    assert_eq!(jobs_creators.lasts_new_template().len(), 1);
    assert_eq!(jobs_creators.lasts_new_template()[0], template(8));

    jobs_creators.reset_new_templates(None);
    assert_eq!(jobs_creators.lasts_new_template().len(), 0);
}

#[test]
fn a_new_tip_keeps_only_its_template() {
    let mut jobs_creators = JobsCreators::new(32);
    let _ = jobs_creators.on_new_template(&template(3), false, vec![out()]);
    let _ = jobs_creators.on_new_template(&template(4), false, vec![out()]);
    assert_eq!(jobs_creators.count_templates(4), 1);

    let mut tip = prev_hash(4);
    tip.target[0] = 2;
    tip.target[31] = 1;
    assert_eq!(jobs_creators.on_new_prev_hash(&tip), Some(2));
    assert_eq!(jobs_creators.lasts_new_template().len(), 1);
    assert_eq!(jobs_creators.lasts_new_template()[0], template(4));
    assert_eq!(jobs_creators.last_target(), Target::new(2, 1 << 120));

    // A tip that no template is for clears them all.
    assert_eq!(jobs_creators.on_new_prev_hash(&prev_hash(5)), None);
    assert_eq!(jobs_creators.lasts_new_template().len(), 0);
    assert_eq!(jobs_creators.last_target(), Target::new(0, 0));
    // The jobs are still known.
    assert_eq!(jobs_creators.get_template_id_from_job(1), Some(3));
}

#[test]
fn valid_tx_outs_are_parsed() {
    for (a, b) in [(2usize, 2usize), (252, 253), (255, 3), (10000, 0), (253, 10000)] {
        let one = TxOut {
            value: 1,
            script_pubkey: vec![7; a],
        };
        let two = TxOut {
            value: u64::MAX,
            script_pubkey: vec![8; b],
        };
        let mut encoded = encoded_out(1, vec![7; a]);
        encoded.extend(encoded_out(u64::MAX, vec![8; b]));
        assert_eq!(tx_outputs_to_costum_scripts(&encoded), vec![one, two]);
    }
}

#[test]
fn parsing_stops_at_what_is_no_output() {
    let mut encoded = encoded_out(5, vec![1, 2]);
    encoded.extend([1, 2, 3]);
    assert_eq!(
        tx_outputs_to_costum_scripts(&encoded),
        vec![TxOut {
            value: 5,
            script_pubkey: vec![1, 2]
        }]
    );
    assert_eq!(tx_outputs_to_costum_scripts(&[]), vec![]);
    // A script that is too long ends the list too.
    let mut encoded = encoded_out(5, vec![1; 10001]);
    encoded.extend(encoded_out(5, vec![1, 2]));
    assert_eq!(tx_outputs_to_costum_scripts(&encoded), vec![]);
}

#[test]
fn a_job_holds_what_its_template_says() {
    let mut t = template(1);
    t.coinbase_tx_outputs = encoded_out(77, vec![9, 9]);
    let mut jobs_creators = JobsCreators::new(8);
    let job = jobs_creators.on_new_template(&t, true, vec![out()]).unwrap();
    let mut prefix = vec![2, 0, 0, 0, 0, 1, 1];
    prefix.extend([0; 32]);
    prefix.extend([255, 255, 255, 255, 13, 3, 1, 2, 3, 0]);
    let mut suffix = vec![0xfe, 0xff, 0xff, 0xff, 2];
    suffix.extend(encoded_out(BLOCK_REWARD, vec![0x51]));
    suffix.extend(encoded_out(77, vec![9, 9]));
    suffix.extend([1, 32]);
    suffix.extend([0; 32]);
    suffix.extend([17, 0, 0, 0]);
    assert_eq!(
        job,
        NewExtendedMiningJob {
            channel_id: 0,
            job_id: 1,
            future_job: true,
            version: 0x2000_0000,
            version_rolling_allowed: true,
            merkle_path: vec![[5; 32], [6; 32]],
            coinbase_tx_prefix: prefix,
            coinbase_tx_suffix: suffix,
        }
    );
}

#[test]
fn bad_templates_give_no_job() {
    let mut t = template(1);
    t.coinbase_tx_version = 1 << 31;
    let r = new_extended_job(&t, &vec![out()], 1, false, 32);
    assert_eq!(r, Err(RolesError::TxVersionTooBig));
    t.coinbase_tx_version = 1;
    let r = new_extended_job(&t, &vec![out()], 1, false, 32);
    assert_eq!(r, Err(RolesError::TxVersionTooLow));
    t.coinbase_tx_version = 2;
    t.coinbase_prefix = vec![3, 1, 2, 3];
    let r = new_extended_job(&t, &vec![out()], 1, false, 32);
    assert_eq!(r, Err(RolesError::InvalidBip34Bytes(vec![3, 1, 2, 3])));
    assert_eq!(
        get_bip_34_bytes(&t, 2),
        Err(RolesError::InvalidBip34Bytes(vec![3, 1, 2, 3]))
    );
    assert_eq!(get_bip_34_bytes(&template(1), 2), Ok(vec![3, 1, 2, 3, 0]));
    // Outputs that do not fit in the suffix.
    let long = TxOut {
        value: 1,
        script_pubkey: vec![0; 70000],
    };
    let r = new_extended_job(&template(1), &vec![long], 1, false, 32);
    assert_eq!(
        r,
        Err(RolesError::BinarySv2Error {
            max_size: 65535,
            len: 4 + 1 + 8 + 5 + 70000 + 2 + 32 + 4
        })
    );
}

#[test]
fn a_template_that_gives_no_job_is_kept() {
    let mut t = template(1);
    t.coinbase_tx_version = 1;
    let mut jobs_creators = JobsCreators::new(32);
    assert_eq!(
        jobs_creators.on_new_template(&t, false, vec![]),
        Err(RolesError::TxVersionTooLow)
    );
    assert_eq!(jobs_creators.lasts_new_template().len(), 1);
    assert_eq!(jobs_creators.get_template_id_from_job(1), Some(1));
}

#[test]
fn a_coinbase_without_a_prefix_has_no_witness() {
    let tx = coinbase(vec![], 1, 0, 0, &vec![out()], 4);
    assert_eq!(tx.input[0].witness.len(), 0);
    assert_eq!(tx.input[0].script_sig, vec![0; 4]);
    let prefix = coinbase_tx_prefix(&tx, 0).unwrap();
    let suffix = coinbase_tx_suffix(&tx, 4, 0).unwrap();
    assert_eq!(prefix.len(), 42);
    assert_eq!(prefix[..5], [1, 0, 0, 0, 1]);
    assert_eq!(suffix[..5], [0, 0, 0, 0, 1]);
}

#[test]
fn a_stripped_job_has_the_root_of_its_coinbase() {
    let mut jobs_creators = JobsCreators::new(16);
    let job = jobs_creators
        .on_new_template(&template(1), true, vec![out()])
        .unwrap();
    let extranonce: Vec<u8> = (1..=16).collect();
    let path = job.merkle_path.clone();
    let before = merkle_root_from_path(
        &job.coinbase_tx_prefix,
        &job.coinbase_tx_suffix,
        &extranonce,
        &path,
    );
    let stripped = extended_job_to_non_segwit(job, 16).unwrap();
    assert_eq!(stripped.coinbase_tx_prefix[..5], [2, 0, 0, 0, 1]);
    let after = merkle_root_from_path(
        &stripped.coinbase_tx_prefix,
        &stripped.coinbase_tx_suffix,
        &extranonce,
        &path,
    );
    assert!(before.is_some());
    assert_eq!(before, after);
    // Stripping again changes nothing.
    let prefix = stripped.coinbase_tx_prefix.clone();
    let suffix = stripped.coinbase_tx_suffix.clone();
    let again = extended_job_to_non_segwit(stripped, 16).unwrap();
    assert_eq!((again.coinbase_tx_prefix, again.coinbase_tx_suffix), (prefix, suffix));
}

fn job(coinbase_tx_prefix: Vec<u8>, coinbase_tx_suffix: Vec<u8>) -> NewExtendedMiningJob {
    NewExtendedMiningJob {
        channel_id: 1,
        job_id: 2,
        future_job: false,
        version: 3,
        version_rolling_allowed: true,
        merkle_path: vec![],
        coinbase_tx_prefix,
        coinbase_tx_suffix,
    }
}

#[test]
fn what_is_no_coinbase_is_not_stripped() {
    let r = try_extended_job_to_non_segwit(job(vec![1], vec![2]), 4);
    assert!(matches!(r, Some(Err(RolesError::InvalidCoinbase))));
    let mut jobs_creators = JobsCreators::new(16);
    let made = jobs_creators
        .on_new_template(&template(1), true, vec![out()])
        .unwrap();
    let r = try_extended_job_to_non_segwit(made, 16);
    assert!(matches!(r, Some(Ok(_))));
}

#[test]
fn a_coinbase_without_inputs_is_not_stripped() {
    let tx = Transaction {
        version: 2,
        lock_time: 0,
        input: vec![],
        output: vec![],
    };
    let r = strip_job(job(vec![], vec![]), tx, 0);
    assert_eq!(r, Err(RolesError::BadPayloadSize));
}

#[test]
fn fields_of_messages_have_a_length() {
    assert_eq!(to_b064k(vec![1; 65535]), Ok(vec![1; 65535]));
    assert_eq!(
        to_b064k(vec![1; 65536]),
        Err(RolesError::BinarySv2Error {
            max_size: 65535,
            len: 65536
        })
    );
    assert_eq!(to_u256(vec![1; 32]), Ok(vec![1; 32]));
    assert_eq!(
        to_u256(vec![1; 33]),
        Err(RolesError::BinarySv2Error {
            max_size: 32,
            len: 33
        })
    );
}

#[test]
fn coinbases_that_differ_are_written_differently() {
    let base = || coinbase(vec![1, 9, 9], 2, 5, 6, &vec![out()], 4);
    let written = |tx: Transaction| {
        (
            coinbase_tx_prefix(&tx, 3).unwrap(),
            coinbase_tx_suffix(&tx, 4, 3).unwrap(),
        )
    };
    let mut others = [base(), base(), base(), base(), base()];
    others[0].version = 3;
    others[1].lock_time = 6;
    others[2].input[0].sequence = 7;
    others[3].input[0].witness[0] = vec![1; 32];
    others[4].output[0].value += 1;
    assert_eq!(written(base()), written(base()));
    for other in others {
        assert_ne!(written(other), written(base()));
    }
}

#[test]
fn a_received_job_keeps_its_root_when_it_is_stripped() {
    // Two inputs, one of them with a witness, and the extranonce at the end of the second script.
    let input = |byte: u8, script: Vec<u8>, witness: Vec<Vec<u8>>| bitcoin::TxIn {
        previous_output: bitcoin::OutPoint {
            txid: bitcoin::hashes::Hash::from_inner([byte; 32]),
            vout: byte as u32,
        },
        script_sig: script.into(),
        sequence: 7,
        witness,
    };
    let tx = bitcoin::Transaction {
        version: 2,
        lock_time: 9,
        input: vec![
            input(1, vec![4, 5], vec![]),
            input(2, vec![6, 7, 8, 0, 0, 0, 0], vec![vec![1; 40]]),
        ],
        output: vec![bitcoin::TxOut {
            value: 3,
            script_pubkey: vec![0x51].into(),
        }],
    };
    let encoded = bitcoin::consensus::encode::serialize(&tx);
    let cut = 4 + 2 + 1 + (32 + 4 + 1 + 2 + 4) + 32 + 4 + 1 + 3;
    let received = job(encoded[..cut].to_vec(), encoded[cut + 4..].to_vec());
    let extranonce = [9u8, 8, 7, 6];
    let path = [[3u8; 32]];
    let before = merkle_root_from_path(
        &received.coinbase_tx_prefix,
        &received.coinbase_tx_suffix,
        &extranonce,
        &path,
    );
    let stripped = extended_job_to_non_segwit(received, 4).unwrap();
    let after = merkle_root_from_path(
        &stripped.coinbase_tx_prefix,
        &stripped.coinbase_tx_suffix,
        &extranonce,
        &path,
    );
    assert!(before.is_some());
    assert_eq!(before, after);
}
