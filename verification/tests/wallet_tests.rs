use local_wallet::keys::random_derivation_index;
use local_wallet::wallet_dir::cash_note_file_name;
use local_wallet::{
    CashNote, ContentAddress, ContentPaymentsIdMap, DepositOutcome, DerivationIndex,
    DerivedSecretKey, Error, Input, KeyLessWallet, LocalWallet, MainPubkey, MainSecretKey, Nano,
    Output, PendingSpends, SpendRequest, Transaction, TransferOutputs, UniquePubkey, WalletDir,
};

const GENESIS_CASHNOTE_AMOUNT: u64 = 1_288_490_188_500_000_000;

const GENESIS_DERIVATION_INDEX: DerivationIndex = [0u8; 32];

/// The identity of the cash note made out to `main_pubkey` with `index`.
fn unique_pubkey_for(main_pubkey: &MainPubkey, index: &DerivationIndex) -> UniquePubkey {
    let public_key =
        blsttc::PublicKey::from_bytes(main_pubkey.to_bytes()).expect("A valid public key.");
    UniquePubkey::new(public_key.derive_child(index).to_bytes())
}

/// A cash note of `amount` made out to `main_pubkey`, out of a transaction
/// without inputs.
fn cash_note_for(main_pubkey: &MainPubkey, index: DerivationIndex, amount: u64) -> CashNote {
    let id = unique_pubkey_for(main_pubkey, &index);
    CashNote {
        id,
        src_tx: Transaction {
            inputs: vec![],
            outputs: vec![Output {
                unique_pubkey: id,
                amount: Nano::from(amount),
            }],
        },
        main_pubkey: *main_pubkey,
        derivation_index: index,
    }
}

fn create_first_cash_note_for(main_pubkey: &MainPubkey) -> CashNote {
    cash_note_for(main_pubkey, GENESIS_DERIVATION_INDEX, GENESIS_CASHNOTE_AMOUNT)
}

fn create_first_cash_note_from_key(key: &MainSecretKey) -> CashNote {
    create_first_cash_note_for(&key.main_pubkey())
}

/// Builds a transfer that charges `fee`: spends cash notes in the order given
/// until the outputs and the fee are covered, and sends what is left over back
/// to `change_to`.
fn create_transfer_with_fee(
    available_cash_notes: Vec<(CashNote, DerivedSecretKey)>,
    recipients: Vec<(Nano, MainPubkey, DerivationIndex)>,
    change_to: MainPubkey,
    reason_hash: local_wallet::cash_note::Hash,
    fee: u64,
) -> Result<TransferOutputs, Error> {
    let mut needed: u64 = fee;
    for (amount, _, _) in recipients.iter() {
        needed = needed
            .checked_add(amount.as_nano())
            .ok_or(Error::NotEnoughBalance)?;
    }

    let mut selected = vec![];
    let mut gathered: u64 = 0;
    for (cash_note, derived_key) in available_cash_notes {
        if gathered >= needed {
            break;
        }
        let amount = cash_note.token()?;
        gathered = gathered
            .checked_add(amount.as_nano())
            .ok_or(Error::NotEnoughBalance)?;
        selected.push((cash_note, derived_key, amount));
    }
    if gathered < needed {
        return Err(Error::NotEnoughBalance);
    }
    let change = gathered - needed;

    let inputs: Vec<Input> = selected
        .iter()
        .map(|(cash_note, _, amount)| Input {
            unique_pubkey: cash_note.unique_pubkey(),
            amount: *amount,
        })
        .collect();
    let mut outputs: Vec<Output> = recipients
        .iter()
        .map(|(amount, main_pubkey, index)| Output {
            unique_pubkey: unique_pubkey_for(main_pubkey, index),
            amount: *amount,
        })
        .collect();
    let change_index = random_derivation_index().expect("Random bytes.");
    if change > 0 {
        outputs.push(Output {
            unique_pubkey: unique_pubkey_for(&change_to, &change_index),
            amount: Nano::from(change),
        });
    }
    let tx = Transaction { inputs, outputs };

    let created_cash_notes: Vec<CashNote> = recipients
        .iter()
        .map(|(_, main_pubkey, index)| CashNote {
            id: unique_pubkey_for(main_pubkey, index),
            src_tx: tx.clone(),
            main_pubkey: *main_pubkey,
            derivation_index: *index,
        })
        .collect();
    let change_cash_note = if change > 0 {
        Some(CashNote {
            id: unique_pubkey_for(&change_to, &change_index),
            src_tx: tx.clone(),
            main_pubkey: change_to,
            derivation_index: change_index,
        })
    } else {
        None
    };
    let all_spend_requests: Vec<SpendRequest> = selected
        .iter()
        .map(|(cash_note, derived_key, amount)| {
            let id = cash_note.unique_pubkey();
            let mut msg = id.to_bytes().to_vec();
            msg.extend_from_slice(&reason_hash.bytes);
            msg.extend_from_slice(&amount.as_nano().to_be_bytes());
            SpendRequest {
                unique_pubkey: id,
                spent_tx: local_wallet::cash_note::Hash::new(xor_name::XorName::from_content(&msg).0),
                reason: reason_hash,
                amount: *amount,
                signature: derived_key.sign(&msg).bytes,
            }
        })
        .collect();

    Ok(TransferOutputs {
        tx,
        created_cash_notes,
        change_cash_note,
        all_spend_requests,
    })
}

fn create_offline_transfer(
    available_cash_notes: Vec<(CashNote, DerivedSecretKey)>,
    recipients: Vec<(Nano, MainPubkey, DerivationIndex)>,
    change_to: MainPubkey,
    reason_hash: local_wallet::cash_note::Hash,
) -> Result<TransferOutputs, Error> {
    create_transfer_with_fee(available_cash_notes, recipients, change_to, reason_hash, 0)
}

fn spend_request(seed: u8) -> SpendRequest {
    SpendRequest {
        unique_pubkey: UniquePubkey::new([seed; 48]),
        spent_tx: local_wallet::cash_note::Hash::new([seed; 32]),
        reason: local_wallet::cash_note::Hash::default(),
        amount: Nano::from(seed as u64),
        signature: [seed; 96],
    }
}

// The wallet's ledger alone.

#[test]
fn keyless_wallet_to_and_from_file() {
    let key = MainSecretKey::random();
    let mut wallet = KeyLessWallet::new();
    let genesis = create_first_cash_note_from_key(&key);

    let mut wallet_dir = WalletDir::new();

    let inserted = wallet
        .insert_available(
            genesis.unique_pubkey(),
            genesis.token().expect("An amount."),
        )
        .expect("The amount to fit.");
    assert!(inserted);

    wallet_dir.store_wallet(&wallet);

    let deserialized = wallet_dir
        .get_wallet()
        .expect("The saved ledger to be in order.")
        .expect("There to be a wallet on disk.");

    assert_eq!(GENESIS_CASHNOTE_AMOUNT, wallet.balance().as_nano());
    assert_eq!(GENESIS_CASHNOTE_AMOUNT, deserialized.balance().as_nano());
}

#[test]
fn wallet_basics() {
    let key = MainSecretKey::random();
    let main_pubkey = key.main_pubkey();
    let deposit_only = LocalWallet::new(key, WalletDir::new());

    assert_eq!(main_pubkey, deposit_only.address());
    assert_eq!(Nano::zero(), deposit_only.balance());

    assert!(deposit_only.wallet().available_cash_notes().is_empty());
    assert!(deposit_only
        .wallet()
        .cash_notes_created_for_others()
        .is_empty());
    assert!(deposit_only.wallet().spent_cash_notes().is_empty());
}

#[test]
fn new_wallet_stands_on_its_directory() {
    let key = MainSecretKey::random();
    let mut wallet_dir = WalletDir::new();
    wallet_dir.store_new_keypair(&MainSecretKey::random());
    wallet_dir.set_wallet_file(vec![1, 2, 3]);
    wallet_dir.set_unconfirmed_txs_file(vec![4, 5, 6]);

    let wallet = LocalWallet::new(key.clone(), wallet_dir);

    // The key is on file, and an empty ledger and no spends are saved.
    assert_eq!(
        Some(key.main_pubkey()),
        wallet
            .wallet_dir()
            .get_main_key()
            .map(|on_file| on_file.main_pubkey())
    );
    assert_eq!(
        Ok(Some(KeyLessWallet::new())),
        wallet.wallet_dir().get_wallet()
    );
    assert_eq!(
        Ok(Some(PendingSpends::new())),
        wallet.wallet_dir().get_unconfirmed_txs()
    );
    let loaded = LocalWallet::try_load_from(Some(wallet.wallet_dir().clone()))
        .expect("The wallet to load.");
    assert_eq!(key.main_pubkey(), loaded.address());
    assert_eq!(wallet.wallet(), loaded.wallet());
}

// Deposits.

#[test]
fn deposit_empty_list_does_nothing() {
    let mut deposit_only = LocalWallet::new(MainSecretKey::random(), WalletDir::new());

    deposit_only.deposit(&vec![]).expect("An empty deposit.");

    assert_eq!(Nano::zero(), deposit_only.balance());

    assert!(deposit_only.wallet().available_cash_notes().is_empty());
    assert!(deposit_only
        .wallet()
        .cash_notes_created_for_others()
        .is_empty());
    assert!(deposit_only.wallet().spent_cash_notes().is_empty());
}

#[test]
fn deposit_adds_cash_notes_that_belongs_to_the_wallet() {
    let key = MainSecretKey::random();
    let genesis = create_first_cash_note_from_key(&key);

    let mut deposit_only = LocalWallet::new(key, WalletDir::new());

    deposit_only.deposit(&vec![genesis]).expect("A deposit.");

    assert_eq!(GENESIS_CASHNOTE_AMOUNT, deposit_only.balance().as_nano());
}

#[test]
fn deposit_does_not_add_cash_notes_not_belonging_to_the_wallet() {
    let genesis = create_first_cash_note_from_key(&MainSecretKey::random());

    let mut local_wallet = LocalWallet::new(MainSecretKey::random(), WalletDir::new());

    local_wallet.deposit(&vec![genesis]).expect("A deposit.");

    assert_eq!(Nano::zero(), local_wallet.balance());
}

#[test]
fn deposit_is_idempotent() {
    let key = MainSecretKey::random();
    let genesis_0 = create_first_cash_note_from_key(&key);
    let genesis_1 = create_first_cash_note_from_key(&key);

    let mut deposit_only = LocalWallet::new(key, WalletDir::new());

    deposit_only
        .deposit(&vec![genesis_0.clone()])
        .expect("A deposit.");
    assert_eq!(GENESIS_CASHNOTE_AMOUNT, deposit_only.balance().as_nano());

    deposit_only.deposit(&vec![genesis_0]).expect("A deposit.");
    assert_eq!(GENESIS_CASHNOTE_AMOUNT, deposit_only.balance().as_nano());

    deposit_only.deposit(&vec![genesis_1]).expect("A deposit.");
    assert_eq!(GENESIS_CASHNOTE_AMOUNT, deposit_only.balance().as_nano());
}

#[test]
fn deposit_wallet_to_and_from_file() {
    let mut depositor = LocalWallet::load_from(None).expect("A new wallet.");
    let genesis = create_first_cash_note_for(&depositor.address());
    depositor.deposit(&vec![genesis]).expect("A deposit.");
    depositor.store().expect("The ledger to be saved.");

    let deserialized = LocalWallet::load_from(Some(depositor.wallet_dir().clone()))
        .expect("The wallet to load.");

    assert_eq!(depositor.address(), deserialized.address());
    assert_eq!(GENESIS_CASHNOTE_AMOUNT, depositor.balance().as_nano());
    assert_eq!(GENESIS_CASHNOTE_AMOUNT, deserialized.balance().as_nano());

    assert_eq!(1, depositor.wallet().available_cash_notes().len());
    assert_eq!(0, depositor.wallet().cash_notes_created_for_others().len());
    assert_eq!(0, depositor.wallet().spent_cash_notes().len());

    assert_eq!(1, deserialized.wallet().available_cash_notes().len());
    assert_eq!(
        0,
        deserialized.wallet().cash_notes_created_for_others().len()
    );
    assert_eq!(0, deserialized.wallet().spent_cash_notes().len());

    let a_available = depositor
        .wallet()
        .available_cash_notes()
        .last()
        .expect("There to be an available CashNote.");
    let b_available = deserialized
        .wallet()
        .available_cash_notes()
        .last()
        .expect("There to be an available CashNote.");
    assert_eq!(a_available, b_available);
}

// Sends.

#[test]
fn sending_decreases_balance() {
    let mut sender = LocalWallet::load_from(None).expect("A new wallet.");
    let sender_cash_note = create_first_cash_note_for(&sender.address());
    sender.deposit(&vec![sender_cash_note]).expect("A deposit.");

    assert_eq!(GENESIS_CASHNOTE_AMOUNT, sender.balance().as_nano());

    // We send to a new address.
    let send_amount = 100;
    let recipient_key = MainSecretKey::random();
    let recipient_main_pubkey = recipient_key.main_pubkey();
    let to = vec![(Nano::from(send_amount), recipient_main_pubkey)];
    let created_cash_notes = sender
        .local_send(to, None, create_offline_transfer)
        .expect("A transfer.");

    assert_eq!(1, created_cash_notes.len());
    assert_eq!(
        GENESIS_CASHNOTE_AMOUNT - send_amount,
        sender.balance().as_nano()
    );

    let recipient_cash_note = &created_cash_notes[0];
    assert_eq!(
        Nano::from(send_amount),
        recipient_cash_note.token().expect("An amount.")
    );
    assert_eq!(&recipient_main_pubkey, recipient_cash_note.main_pubkey());
}

#[test]
fn send_wallet_to_and_from_file() {
    let mut sender = LocalWallet::load_from(None).expect("A new wallet.");
    let sender_cash_note = create_first_cash_note_for(&sender.address());
    sender.deposit(&vec![sender_cash_note]).expect("A deposit.");

    // We send to a new address.
    let send_amount = 100;
    let recipient_key = MainSecretKey::random();
    let recipient_main_pubkey = recipient_key.main_pubkey();
    let to = vec![(Nano::from(send_amount), recipient_main_pubkey)];
    let _created_cash_notes = sender
        .local_send(to, None, create_offline_transfer)
        .expect("A transfer.");

    sender.store().expect("The ledger to be saved.");

    let deserialized =
        LocalWallet::load_from(Some(sender.wallet_dir().clone())).expect("The wallet to load.");

    assert_eq!(sender.address(), deserialized.address());
    assert_eq!(
        GENESIS_CASHNOTE_AMOUNT - send_amount,
        sender.balance().as_nano()
    );
    assert_eq!(
        GENESIS_CASHNOTE_AMOUNT - send_amount,
        deserialized.balance().as_nano()
    );

    assert_eq!(1, sender.wallet().available_cash_notes().len());
    assert_eq!(1, sender.wallet().cash_notes_created_for_others().len());
    assert_eq!(1, sender.wallet().spent_cash_notes().len());

    assert_eq!(1, deserialized.wallet().available_cash_notes().len());
    assert_eq!(
        1,
        deserialized.wallet().cash_notes_created_for_others().len()
    );
    assert_eq!(1, deserialized.wallet().spent_cash_notes().len());

    let a_available = sender
        .wallet()
        .available_cash_notes()
        .last()
        .expect("There to be an available CashNote.");
    let b_available = deserialized
        .wallet()
        .available_cash_notes()
        .last()
        .expect("There to be an available CashNote.");
    assert_eq!(a_available, b_available);

    let a_created_for_others = sender.wallet().cash_notes_created_for_others();
    let b_created_for_others = deserialized.wallet().cash_notes_created_for_others();
    assert_eq!(a_created_for_others, b_created_for_others);

    let a_spent = sender
        .wallet()
        .spent_cash_notes()
        .last()
        .expect("There to be a spent CashNote.");
    let b_spent = deserialized
        .wallet()
        .spent_cash_notes()
        .last()
        .expect("There to be a spent CashNote.");
    assert_eq!(a_spent, b_spent);
}

#[test]
fn store_created_cash_note_gives_file_that_try_load_deposits_can_use() {
    let mut sender = LocalWallet::load_from(None).expect("A new wallet.");
    let sender_cash_note = create_first_cash_note_for(&sender.address());
    sender.deposit(&vec![sender_cash_note]).expect("A deposit.");

    let send_amount = 100;

    // Send to a new address.
    let mut recipient = LocalWallet::load_from(None).expect("A new wallet.");
    let recipient_main_pubkey = recipient.address();

    let to = vec![(Nano::from(send_amount), recipient_main_pubkey)];
    let created_cash_notes = sender
        .local_send(to, None, create_offline_transfer)
        .expect("A transfer.");
    let cash_note = created_cash_notes[0].clone();
    let unique_pubkey = cash_note.unique_pubkey();
    sender
        .store_cash_note(&cash_note)
        .expect("The cash note to go on record.");

    let unique_pubkey_name = xor_name::XorName::from_content(&unique_pubkey.to_bytes());
    let unique_pubkey_file_name = format!("{}.cash_note", hex::encode(unique_pubkey_name));
    assert_eq!(unique_pubkey_file_name, cash_note_file_name(&unique_pubkey));

    // Move the created cash_note to the recipient's received_cash_notes dir.
    let created_cash_note = sender
        .get_cash_note(&unique_pubkey)
        .expect("The cash note to be on record.");
    assert_eq!(cash_note, created_cash_note);
    recipient.receive_cash_note(created_cash_note);

    assert_eq!(0, recipient.wallet().balance().as_nano());

    recipient.try_load_deposits().expect("The deposits to load.");

    assert_eq!(1, recipient.wallet().available_cash_notes().len());

    // Looking at the same cash notes again changes nothing.
    let received = recipient
        .wallet_dir()
        .received_cash_notes()
        .expect("A place for received cash notes.")
        .clone();
    assert_eq!(1, received.len());
    recipient.set_received_cash_notes(received);
    recipient.try_load_deposits().expect("The deposits to load.");
    assert_eq!(1, recipient.wallet().available_cash_notes().len());

    let available = recipient
        .wallet()
        .available_cash_notes()
        .last()
        .expect("There to be an available CashNote.")
        .0;

    assert_eq!(available, unique_pubkey);
    assert_eq!(send_amount, recipient.wallet().balance().as_nano());
}

#[test]
fn send_100_of_1000_leaves_change_of_900() {
    let key = MainSecretKey::random();
    let note = cash_note_for(&key.main_pubkey(), [1u8; 32], 1000);
    let note_id = note.unique_pubkey();
    let mut sender = LocalWallet::new(key, WalletDir::new());
    sender.deposit(&vec![note]).expect("A deposit.");
    assert_eq!(1000, sender.balance().as_nano());

    let recipient = MainSecretKey::random().main_pubkey();
    let created = sender
        .local_send(
            vec![(Nano::from(100), recipient)],
            None,
            create_offline_transfer,
        )
        .expect("A transfer.");

    assert_eq!(1, created.len());
    assert_eq!(
        &vec![created[0].unique_pubkey()],
        sender.wallet().cash_notes_created_for_others()
    );
    assert_eq!(&vec![note_id], sender.wallet().spent_cash_notes());
    assert_eq!(1, sender.wallet().available_cash_notes().len());
    let (change_id, change_amount) = sender.wallet().available_cash_notes()[0];
    assert_eq!(Nano::from(900), change_amount);
    assert_ne!(note_id, change_id);
    assert_ne!(created[0].unique_pubkey(), change_id);
    assert_eq!(900, sender.balance().as_nano());

    // The spend waits for the network, and the change is on record.
    assert!(sender.unconfirmed_txs_exist());
    assert_eq!(1, sender.unconfirmed_txs().len());
    assert_eq!(note_id, sender.unconfirmed_txs()[0].unique_pubkey);
    assert!(sender.get_cash_note(&change_id).is_some());
    assert!(sender.get_cash_note(&created[0].unique_pubkey()).is_some());
}

#[test]
fn depositing_the_same_cash_note_twice_leaves_one_entry() {
    let key = MainSecretKey::random();
    let note = cash_note_for(&key.main_pubkey(), [2u8; 32], 250);
    let mut wallet = LocalWallet::new(key, WalletDir::new());

    wallet.deposit(&vec![note.clone()]).expect("A deposit.");
    let after_first = wallet.wallet().clone();
    wallet.deposit(&vec![note.clone()]).expect("A deposit.");

    assert_eq!(1, wallet.wallet().available_cash_notes().len());
    assert_eq!(250, wallet.balance().as_nano());
    assert_eq!(&after_first, wallet.wallet());
}

#[test]
fn deposit_of_foreign_and_owned_keeps_only_the_owned() {
    let key = MainSecretKey::random();
    let owned = cash_note_for(&key.main_pubkey(), [3u8; 32], 40);
    let foreign = cash_note_for(&MainSecretKey::random().main_pubkey(), [3u8; 32], 60);
    let mut wallet = LocalWallet::new(key, WalletDir::new());

    wallet
        .deposit(&vec![foreign.clone(), owned.clone()])
        .expect("A deposit.");

    assert_eq!(
        &vec![(owned.unique_pubkey(), Nano::from(40))],
        wallet.wallet().available_cash_notes()
    );
    assert_eq!(40, wallet.balance().as_nano());
    assert!(wallet.get_cash_note(&foreign.unique_pubkey()).is_none());
}

#[test]
fn deposit_goes_on_after_a_cash_note_that_is_passed_over() {
    let key = MainSecretKey::random();
    let address = key.main_pubkey();
    let held = cash_note_for(&address, [4u8; 32], 10);
    let new_one = cash_note_for(&address, [5u8; 32], 20);
    let another = cash_note_for(&address, [6u8; 32], 30);
    let mut wallet = LocalWallet::new(key, WalletDir::new());
    wallet.deposit(&vec![held.clone()]).expect("A deposit.");

    // Spend `another` before it is ever handed in.
    wallet
        .update_local_wallet(TransferOutputs {
            tx: Transaction {
                inputs: vec![Input {
                    unique_pubkey: another.unique_pubkey(),
                    amount: Nano::from(30),
                }],
                outputs: vec![],
            },
            created_cash_notes: vec![],
            change_cash_note: None,
            all_spend_requests: vec![],
        })
        .expect("The outcome to apply.");

    wallet
        .deposit(&vec![held.clone(), another.clone(), new_one.clone()])
        .expect("A deposit.");

    assert_eq!(
        &vec![
            (held.unique_pubkey(), Nano::from(10)),
            (new_one.unique_pubkey(), Nano::from(20))
        ],
        wallet.wallet().available_cash_notes()
    );
    assert_eq!(30, wallet.balance().as_nano());
}

#[test]
fn deposit_one_reports_what_became_of_the_cash_note() {
    let key = MainSecretKey::random();
    let address = key.main_pubkey();
    let owned = cash_note_for(&address, [7u8; 32], 5);
    let spent = cash_note_for(&address, [8u8; 32], 6);
    let foreign = cash_note_for(&MainSecretKey::random().main_pubkey(), [7u8; 32], 7);
    let mut wallet = LocalWallet::new(key, WalletDir::new());
    wallet
        .update_local_wallet(TransferOutputs {
            tx: Transaction {
                inputs: vec![Input {
                    unique_pubkey: spent.unique_pubkey(),
                    amount: Nano::from(6),
                }],
                outputs: vec![],
            },
            created_cash_notes: vec![],
            change_cash_note: None,
            all_spend_requests: vec![],
        })
        .expect("The outcome to apply.");

    assert_eq!(Ok(DepositOutcome::Accepted), wallet.deposit_one(&owned));
    assert_eq!(Ok(DepositOutcome::AlreadyHeld), wallet.deposit_one(&owned));
    assert_eq!(Ok(DepositOutcome::AlreadySpent), wallet.deposit_one(&spent));
    assert_eq!(Ok(DepositOutcome::NotOwned), wallet.deposit_one(&foreign));
    assert_eq!(5, wallet.balance().as_nano());
}

#[test]
fn deposit_sums_each_identity_once() {
    let key = MainSecretKey::random();
    let address = key.main_pubkey();
    let a = cash_note_for(&address, [11u8; 32], 1);
    let b = cash_note_for(&address, [12u8; 32], 20);
    let c = cash_note_for(&address, [13u8; 32], 300);
    let mut wallet = LocalWallet::new(key, WalletDir::new());

    wallet
        .deposit(&vec![a.clone(), b.clone(), a.clone(), c.clone(), b.clone()])
        .expect("A deposit.");
    assert_eq!(321, wallet.balance().as_nano());

    wallet.deposit(&vec![c, a, b]).expect("A deposit.");
    assert_eq!(321, wallet.balance().as_nano());
    assert_eq!(3, wallet.wallet().available_cash_notes().len());
}

#[test]
fn foreign_deposit_leaves_the_wallet_as_it_was() {
    let key = MainSecretKey::random();
    let owned = cash_note_for(&key.main_pubkey(), [14u8; 32], 77);
    let mut wallet = LocalWallet::new(key, WalletDir::new());
    wallet.deposit(&vec![owned]).expect("A deposit.");
    let before = wallet.wallet().clone();

    let stranger = MainSecretKey::random().main_pubkey();
    wallet
        .deposit(&vec![
            cash_note_for(&stranger, [15u8; 32], 5),
            cash_note_for(&stranger, [16u8; 32], 6),
        ])
        .expect("A deposit.");

    assert_eq!(&before, wallet.wallet());
    assert_eq!(77, wallet.balance().as_nano());
    assert_eq!(1, wallet.wallet_dir().created_cash_notes().len());
}

#[test]
fn deposit_fails_when_the_amount_cannot_be_read() {
    let key = MainSecretKey::random();
    let address = key.main_pubkey();
    let good = cash_note_for(&address, [17u8; 32], 9);
    let mut broken = cash_note_for(&address, [18u8; 32], 9);
    broken.src_tx.outputs.clear();
    let late = cash_note_for(&address, [19u8; 32], 9);
    let mut wallet = LocalWallet::new(key, WalletDir::new());

    assert_eq!(Err(Error::OutputNotFound), broken.token());
    assert_eq!(
        Err(Error::OutputNotFound),
        wallet.deposit(&vec![good.clone(), broken, late])
    );

    // What was taken in before the failure stays.
    assert_eq!(
        &vec![(good.unique_pubkey(), Nano::from(9))],
        wallet.wallet().available_cash_notes()
    );
}

#[test]
fn deposit_fails_when_the_balance_cannot_be_counted() {
    let key = MainSecretKey::random();
    let address = key.main_pubkey();
    let big = cash_note_for(&address, [20u8; 32], u64::MAX - 1);
    let one = cash_note_for(&address, [21u8; 32], 1);
    let two = cash_note_for(&address, [22u8; 32], 2);
    let mut wallet = LocalWallet::new(key, WalletDir::new());

    wallet.deposit(&vec![big]).expect("A deposit.");
    assert_eq!(Err(Error::BalanceOverflow), wallet.deposit(&vec![two.clone()]));
    assert_eq!(u64::MAX - 1, wallet.balance().as_nano());
    assert!(wallet.get_cash_note(&two.unique_pubkey()).is_none());

    wallet.deposit(&vec![one]).expect("A deposit.");
    assert_eq!(u64::MAX, wallet.balance().as_nano());
}

#[test]
fn derived_key_is_only_for_the_owner() {
    let key = MainSecretKey::random();
    let note = cash_note_for(&key.main_pubkey(), [23u8; 32], 1);

    let derived = note.derived_key(&key).expect("The owner's key.");
    assert_eq!(note.unique_pubkey(), derived.unique_pubkey());

    let stranger = MainSecretKey::random();
    assert!(matches!(
        note.derived_key(&stranger),
        Err(Error::MainSecretKeyDoesNotMatchMainPubkey)
    ));
}

// Applying the outcome of a transfer.

#[test]
fn inputs_of_a_transfer_end_up_spent_and_not_available() {
    let key = MainSecretKey::random();
    let address = key.main_pubkey();
    let first = cash_note_for(&address, [24u8; 32], 10);
    let second = cash_note_for(&address, [25u8; 32], 20);
    let third = cash_note_for(&address, [26u8; 32], 30);
    let never_held = UniquePubkey::new([9u8; 48]);
    let mut wallet = LocalWallet::new(key, WalletDir::new());
    wallet
        .deposit(&vec![first.clone(), second.clone(), third.clone()])
        .expect("A deposit.");

    let outcome = TransferOutputs {
        tx: Transaction {
            inputs: vec![
                Input {
                    unique_pubkey: third.unique_pubkey(),
                    amount: Nano::from(30),
                },
                Input {
                    unique_pubkey: never_held,
                    amount: Nano::from(1),
                },
                Input {
                    unique_pubkey: first.unique_pubkey(),
                    amount: Nano::from(10),
                },
                Input {
                    unique_pubkey: third.unique_pubkey(),
                    amount: Nano::from(30),
                },
            ],
            outputs: vec![],
        },
        created_cash_notes: vec![],
        change_cash_note: None,
        all_spend_requests: vec![spend_request(1), spend_request(2), spend_request(1)],
    };
    wallet
        .update_local_wallet(outcome)
        .expect("The outcome to apply.");

    assert_eq!(
        &vec![third.unique_pubkey(), never_held, first.unique_pubkey()],
        wallet.wallet().spent_cash_notes()
    );
    assert_eq!(
        &vec![(second.unique_pubkey(), Nano::from(20))],
        wallet.wallet().available_cash_notes()
    );
    assert_eq!(20, wallet.balance().as_nano());
    assert_eq!(
        &vec![spend_request(1), spend_request(2)],
        wallet.unconfirmed_txs()
    );

    // A spent cash note does not come back, and the list of spent ones only grows.
    wallet.deposit(&vec![first, third]).expect("A deposit.");
    assert_eq!(20, wallet.balance().as_nano());
    wallet
        .update_local_wallet(TransferOutputs {
            tx: Transaction {
                inputs: vec![Input {
                    unique_pubkey: second.unique_pubkey(),
                    amount: Nano::from(20),
                }],
                outputs: vec![],
            },
            created_cash_notes: vec![],
            change_cash_note: None,
            all_spend_requests: vec![spend_request(3)],
        })
        .expect("The outcome to apply.");
    assert_eq!(4, wallet.wallet().spent_cash_notes().len());
    assert_eq!(0, wallet.balance().as_nano());
    assert_eq!(
        &vec![spend_request(1), spend_request(2), spend_request(3)],
        wallet.unconfirmed_txs()
    );
}

#[test]
fn change_that_cannot_be_read_leaves_the_rest_undone() {
    let key = MainSecretKey::random();
    let address = key.main_pubkey();
    let held = cash_note_for(&address, [50u8; 32], 10);
    let mut change = cash_note_for(&address, [51u8; 32], 4);
    change.src_tx.outputs.clear();
    let made = cash_note_for(&MainSecretKey::random().main_pubkey(), [52u8; 32], 6);
    let mut wallet = LocalWallet::new(key, WalletDir::new());
    wallet.deposit(&vec![held.clone()]).expect("A deposit.");

    let applied = wallet.update_local_wallet(TransferOutputs {
        tx: Transaction {
            inputs: vec![Input {
                unique_pubkey: held.unique_pubkey(),
                amount: Nano::from(10),
            }],
            outputs: vec![],
        },
        created_cash_notes: vec![made.clone()],
        change_cash_note: Some(change),
        all_spend_requests: vec![spend_request(1)],
    });

    assert_eq!(Err(Error::OutputNotFound), applied);
    // The input is spent all the same; what came after the change was not done.
    assert_eq!(&vec![held.unique_pubkey()], wallet.wallet().spent_cash_notes());
    assert!(wallet.wallet().available_cash_notes().is_empty());
    assert!(wallet.wallet().cash_notes_created_for_others().is_empty());
    assert!(wallet.get_cash_note(&made.unique_pubkey()).is_none());
    assert!(!wallet.unconfirmed_txs_exist());
}

#[test]
fn apply_send_hands_back_what_was_made_or_the_failure() {
    let key = MainSecretKey::random();
    let address = key.main_pubkey();
    let held = cash_note_for(&address, [53u8; 32], 10);
    let made = cash_note_for(&MainSecretKey::random().main_pubkey(), [54u8; 32], 10);
    let mut wallet = LocalWallet::new(key, WalletDir::new());
    wallet.deposit(&vec![held.clone()]).expect("A deposit.");
    let before = wallet.wallet().clone();

    assert_eq!(
        Err(Error::NotEnoughBalance),
        wallet.apply_send(Err(Error::NotEnoughBalance))
    );
    assert_eq!(&before, wallet.wallet());
    assert_eq!(
        Err(Error::NotEnoughBalance),
        wallet.apply_storage_payment(&vec![], Err(Error::NotEnoughBalance))
    );
    assert_eq!(&before, wallet.wallet());
    assert_eq!(
        Some(&before.to_bytes()),
        wallet.wallet_dir().wallet_file()
    );
    assert_eq!(
        Some(&vec![0u8; 8]),
        wallet.wallet_dir().unconfirmed_txs_file()
    );

    let sent = wallet.apply_send(Ok(TransferOutputs {
        tx: Transaction {
            inputs: vec![Input {
                unique_pubkey: held.unique_pubkey(),
                amount: Nano::from(10),
            }],
            outputs: vec![],
        },
        created_cash_notes: vec![made.clone()],
        change_cash_note: None,
        all_spend_requests: vec![spend_request(1)],
    }));
    assert_eq!(Ok(vec![made.clone()]), sent);
    assert_eq!(0, wallet.balance().as_nano());
    assert_eq!(
        &vec![made.unique_pubkey()],
        wallet.wallet().cash_notes_created_for_others()
    );
    assert_eq!(Some(made), wallet.get_cash_note(&sent.expect("Cash notes.")[0].unique_pubkey()));
}

#[test]
fn balance_drops_by_the_outputs_and_the_fee() {
    let key = MainSecretKey::random();
    let address = key.main_pubkey();
    let mut wallet = LocalWallet::new(key, WalletDir::new());
    let notes = vec![
        cash_note_for(&address, [27u8; 32], 600),
        cash_note_for(&address, [28u8; 32], 500),
        cash_note_for(&address, [29u8; 32], 400),
    ];
    wallet.deposit(&notes).expect("A deposit.");
    assert_eq!(1500, wallet.balance().as_nano());

    let bob = MainSecretKey::random().main_pubkey();
    let carol = MainSecretKey::random().main_pubkey();
    let created = wallet
        .local_send(
            vec![(Nano::from(650), bob), (Nano::from(50), carol)],
            Some(local_wallet::cash_note::Hash::new([1u8; 32])),
            |inputs, outputs, change_to, reason| {
                create_transfer_with_fee(inputs, outputs, change_to, reason, 7)
            },
        )
        .expect("A transfer.");

    assert_eq!(2, created.len());
    assert_eq!(Ok(Nano::from(650)), created[0].token());
    assert_eq!(Ok(Nano::from(50)), created[1].token());
    assert_eq!(1500 - 650 - 50 - 7, wallet.balance().as_nano());
    // The two notes with the lowest identities were spent; the third and the
    // change are left.
    let mut ascending = notes.clone();
    ascending.sort_by_key(|note| note.unique_pubkey().to_bytes());
    assert_eq!(
        &vec![ascending[0].unique_pubkey(), ascending[1].unique_pubkey()],
        wallet.wallet().spent_cash_notes()
    );
    let spent = ascending[0].token().expect("An amount.").as_nano()
        + ascending[1].token().expect("An amount.").as_nano();
    assert_eq!(2, wallet.wallet().available_cash_notes().len());
    assert_eq!(
        (
            ascending[2].unique_pubkey(),
            ascending[2].token().expect("An amount.")
        ),
        wallet.wallet().available_cash_notes()[0]
    );
    assert_eq!(
        Nano::from(spent - 707),
        wallet.wallet().available_cash_notes()[1].1
    );
    assert_eq!(2, wallet.unconfirmed_txs().len());
    assert_eq!(
        local_wallet::cash_note::Hash::new([1u8; 32]),
        wallet.unconfirmed_txs()[0].reason
    );
}

#[test]
fn send_without_a_reason_attaches_the_zero_reason() {
    let key = MainSecretKey::random();
    let address = key.main_pubkey();
    let mut wallet = LocalWallet::new(key, WalletDir::new());
    wallet
        .deposit(&vec![cash_note_for(&address, [30u8; 32], 10)])
        .expect("A deposit.");

    let bob = MainSecretKey::random().main_pubkey();
    wallet
        .local_send(
            vec![(Nano::from(10), bob)],
            None,
            |inputs, outputs, change_to, reason| {
                assert_eq!(local_wallet::cash_note::Hash::new([0u8; 32]), reason);
                assert_eq!(address, change_to);
                assert_eq!(1, inputs.len());
                assert_eq!(1, outputs.len());
                assert_eq!((Nano::from(10), bob), (outputs[0].0, outputs[0].1));
                create_offline_transfer(inputs, outputs, change_to, reason)
            },
        )
        .expect("A transfer.");

    // Nothing was left over, so there is no change.
    assert_eq!(0, wallet.balance().as_nano());
    assert!(wallet.wallet().available_cash_notes().is_empty());
}

#[test]
fn each_output_gets_a_derivation_index_of_its_own() {
    let key = MainSecretKey::random();
    let address = key.main_pubkey();
    let mut wallet = LocalWallet::new(key, WalletDir::new());
    wallet
        .deposit(&vec![cash_note_for(&address, [31u8; 32], 10)])
        .expect("A deposit.");

    let bob = MainSecretKey::random().main_pubkey();
    let created = wallet
        .local_send(
            vec![(Nano::from(3), bob), (Nano::from(3), bob)],
            None,
            create_offline_transfer,
        )
        .expect("A transfer.");

    assert_eq!(2, created.len());
    assert_ne!(created[0].derivation_index(), created[1].derivation_index());
    assert_ne!(created[0].unique_pubkey(), created[1].unique_pubkey());
    assert_ne!(
        random_derivation_index().expect("Random bytes."),
        random_derivation_index().expect("Random bytes.")
    );
}

#[test]
fn send_to_nobody_spends_nothing() {
    let key = MainSecretKey::random();
    let address = key.main_pubkey();
    let mut wallet = LocalWallet::new(key, WalletDir::new());
    wallet
        .deposit(&vec![cash_note_for(&address, [45u8; 32], 10)])
        .expect("A deposit.");
    let before = wallet.wallet().clone();

    let created = wallet
        .local_send(vec![], None, |inputs, outputs, change_to, reason| {
            assert_eq!(1, inputs.len());
            assert!(outputs.is_empty());
            create_offline_transfer(inputs, outputs, change_to, reason)
        })
        .expect("A transfer.");
    assert!(created.is_empty());
    assert_eq!(&before, wallet.wallet());

    wallet
        .local_send_storage_payment(
            vec![(ContentAddress::new([1u8; 32]), vec![])],
            None,
            create_offline_transfer,
        )
        .expect("A payment.");
    assert_eq!(10, wallet.balance().as_nano());
    assert!(wallet
        .get_payment_unique_pubkeys(&ContentAddress::new([1u8; 32]))
        .is_none());
}

#[test]
fn send_fails_when_funds_are_short() {
    let key = MainSecretKey::random();
    let address = key.main_pubkey();
    let mut wallet = LocalWallet::new(key, WalletDir::new());
    wallet
        .deposit(&vec![cash_note_for(&address, [32u8; 32], 10)])
        .expect("A deposit.");
    let before = wallet.wallet().clone();

    let bob = MainSecretKey::random().main_pubkey();
    let sent = wallet.local_send(vec![(Nano::from(11), bob)], None, create_offline_transfer);

    assert_eq!(Err(Error::NotEnoughBalance), sent);
    assert_eq!(&before, wallet.wallet());
    assert!(!wallet.unconfirmed_txs_exist());

    let paid = wallet.local_send_storage_payment(
        vec![(ContentAddress::new([1u8; 32]), vec![(bob, Nano::from(11))])],
        None,
        create_offline_transfer,
    );
    assert_eq!(Err(Error::NotEnoughBalance), paid);
    assert_eq!(&before, wallet.wallet());
}

#[test]
fn available_cash_notes_leaves_out_what_cannot_be_spent() {
    let key = MainSecretKey::random();
    let address = key.main_pubkey();
    let on_record = cash_note_for(&address, [33u8; 32], 10);
    let no_record = cash_note_for(&address, [34u8; 32], 20);
    let foreign = cash_note_for(&MainSecretKey::random().main_pubkey(), [35u8; 32], 30);

    // A ledger that lists three cash notes, over a directory that has the
    // records of two: one of them made out to someone else.
    let mut ledger = KeyLessWallet::new();
    for note in [&on_record, &no_record, &foreign] {
        ledger
            .insert_available(note.unique_pubkey(), note.token().expect("An amount."))
            .expect("The amount to fit.");
    }
    let mut wallet_dir = WalletDir::new();
    wallet_dir.store_new_keypair(&key);
    wallet_dir.store_wallet(&ledger);
    wallet_dir.store_created_cash_notes(vec![&on_record, &foreign]);
    let wallet = LocalWallet::load_from(Some(wallet_dir)).expect("The wallet to load.");

    assert_eq!(60, wallet.balance().as_nano());
    let spendable = wallet.available_cash_notes();
    assert_eq!(1, spendable.len());
    assert_eq!(on_record, spendable[0].0);
    assert_eq!(on_record.unique_pubkey(), spendable[0].1.unique_pubkey());
}

// Payments for storage.

#[test]
fn storage_payment_attributes_each_cash_note_once() {
    let key = MainSecretKey::random();
    let address = key.main_pubkey();
    let mut wallet = LocalWallet::new(key, WalletDir::new());
    wallet
        .deposit(&vec![cash_note_for(&address, [36u8; 32], 1000)])
        .expect("A deposit.");

    // Two content addresses share a payee and an amount.
    let node = MainSecretKey::random().main_pubkey();
    let other_node = MainSecretKey::random().main_pubkey();
    let first = ContentAddress::new([1u8; 32]);
    let second = ContentAddress::new([2u8; 32]);
    wallet
        .local_send_storage_payment(
            vec![
                (first, vec![(node, Nano::from(10)), (other_node, Nano::from(5))]),
                (second, vec![(node, Nano::from(10))]),
            ],
            None,
            create_offline_transfer,
        )
        .expect("A payment.");

    assert_eq!(1000 - 25, wallet.balance().as_nano());
    let for_first = wallet
        .get_payment_unique_pubkeys(&first)
        .expect("Payments for the first content.")
        .clone();
    let for_second = wallet
        .get_payment_unique_pubkeys(&second)
        .expect("Payments for the second content.")
        .clone();
    assert_eq!(2, for_first.len());
    assert_eq!(1, for_second.len());
    assert!(!for_first.contains(&for_second[0]));
    assert_ne!(for_first[0], for_first[1]);
    assert!(wallet
        .get_payment_unique_pubkeys(&ContentAddress::new([3u8; 32]))
        .is_none());

    // Every attributed cash note was made by the transfer, for the right payee.
    assert_eq!(3, wallet.wallet().cash_notes_created_for_others().len());
    let first_notes = wallet.get_payment_cash_notes(&first);
    assert_eq!(2, first_notes.len());
    assert_eq!(&node, first_notes[0].main_pubkey());
    assert_eq!(&other_node, first_notes[1].main_pubkey());
    let second_notes = wallet.get_payment_cash_notes(&second);
    assert_eq!(1, second_notes.len());
    assert_eq!(&node, second_notes[0].main_pubkey());
    assert_eq!(Ok(Nano::from(10)), second_notes[0].token());

    // The ledger was saved with the index.
    let saved = wallet
        .wallet_dir()
        .get_wallet()
        .expect("The saved ledger to be in order.")
        .expect("There to be a wallet on disk.");
    assert_eq!(&saved, wallet.wallet());
    assert_eq!(2, saved.payment_transactions().len());
}

#[test]
fn attribution_takes_the_first_cash_note_that_is_free() {
    let node = MainSecretKey::random().main_pubkey();
    let stranger = MainSecretKey::random().main_pubkey();
    let a = cash_note_for(&node, [37u8; 32], 1);
    let b = cash_note_for(&node, [38u8; 32], 1);
    let first = ContentAddress::new([1u8; 32]);
    let second = ContentAddress::new([2u8; 32]);

    let index = local_wallet::payments::attribute_payments(
        &vec![
            (first, vec![(node, Nano::from(1)), (stranger, Nano::from(1))]),
            (second, vec![(node, Nano::from(1)), (node, Nano::from(1))]),
            (first, vec![(node, Nano::from(1))]),
        ],
        &vec![a.clone(), b.clone()],
    );

    assert_eq!(2, index.len());
    assert_eq!(Some(&vec![a.unique_pubkey()]), index.get(&first));
    assert_eq!(Some(&vec![b.unique_pubkey()]), index.get(&second));
}

#[test]
fn content_payments_are_replaced_per_address() {
    let mut wallet = LocalWallet::new(MainSecretKey::random(), WalletDir::new());
    let first = ContentAddress::new([1u8; 32]);
    let second = ContentAddress::new([2u8; 32]);
    let third = ContentAddress::new([3u8; 32]);
    let id = |seed: u8| UniquePubkey::new([seed; 48]);

    let mut proofs = ContentPaymentsIdMap::new();
    proofs.insert(first, vec![id(1)]);
    proofs.insert(second, vec![id(2), id(3)]);
    wallet.add_content_payments_map(proofs);

    let mut more = ContentPaymentsIdMap::new();
    more.insert(third, vec![]);
    more.insert(first, vec![id(4)]);
    more.push_id(first, id(5));
    more.push_id(ContentAddress::new([4u8; 32]), id(6));
    wallet.add_content_payments_map(more);

    assert_eq!(
        Some(&vec![id(4), id(5)]),
        wallet.get_payment_unique_pubkeys(&first)
    );
    assert_eq!(
        Some(&vec![id(2), id(3)]),
        wallet.get_payment_unique_pubkeys(&second)
    );
    assert_eq!(Some(&vec![]), wallet.get_payment_unique_pubkeys(&third));
    let addresses: Vec<ContentAddress> = wallet
        .wallet()
        .payment_transactions()
        .entries()
        .iter()
        .map(|entry| entry.0)
        .collect();
    assert_eq!(
        vec![first, second, third, ContentAddress::new([4u8; 32])],
        addresses
    );
}

#[test]
fn payment_cash_notes_leave_out_missing_records() {
    let key = MainSecretKey::random();
    let address = key.main_pubkey();
    let on_record = cash_note_for(&address, [39u8; 32], 1);
    let mut wallet = LocalWallet::new(key, WalletDir::new());
    wallet
        .store_cash_notes(vec![&on_record])
        .expect("The cash note to go on record.");

    let name = ContentAddress::new([5u8; 32]);
    let mut proofs = ContentPaymentsIdMap::new();
    proofs.insert(
        name,
        vec![
            UniquePubkey::new([1u8; 48]),
            on_record.unique_pubkey(),
            UniquePubkey::new([2u8; 48]),
        ],
    );
    wallet.add_content_payments_map(proofs);

    assert_eq!(vec![on_record], wallet.get_payment_cash_notes(&name));
    assert!(wallet
        .get_payment_cash_notes(&ContentAddress::new([6u8; 32]))
        .is_empty());
}

// Loading and saving.

#[test]
fn ledger_survives_store_and_load() {
    let key = MainSecretKey::random();
    let address = key.main_pubkey();
    let mut wallet =
        LocalWallet::load_from_main_key(None, key.clone()).expect("A new wallet.");
    wallet
        .deposit(&vec![
            cash_note_for(&address, [40u8; 32], 500),
            cash_note_for(&address, [41u8; 32], 70),
        ])
        .expect("A deposit.");
    let node = MainSecretKey::random().main_pubkey();
    wallet
        .local_send_storage_payment(
            vec![(ContentAddress::new([7u8; 32]), vec![(node, Nano::from(510))])],
            None,
            create_offline_transfer,
        )
        .expect("A payment.");
    wallet.store().expect("The ledger to be saved.");
    wallet
        .store_unconfirmed_txs()
        .expect("The spends to be saved.");

    let loaded =
        LocalWallet::try_load_from(Some(wallet.wallet_dir().clone())).expect("The wallet to load.");

    assert_eq!(address, loaded.address());
    assert_eq!(wallet.wallet(), loaded.wallet());
    assert_eq!(
        wallet.wallet().available_cash_notes(),
        loaded.wallet().available_cash_notes()
    );
    assert_eq!(
        wallet.wallet().spent_cash_notes(),
        loaded.wallet().spent_cash_notes()
    );
    assert_eq!(
        wallet.wallet().cash_notes_created_for_others(),
        loaded.wallet().cash_notes_created_for_others()
    );
    assert_eq!(
        wallet.wallet().payment_transactions(),
        loaded.wallet().payment_transactions()
    );
    assert_eq!(60, loaded.balance().as_nano());
    assert_eq!(wallet.unconfirmed_txs(), loaded.unconfirmed_txs());
    assert_eq!(2, loaded.unconfirmed_txs().len());
}

#[test]
fn try_load_from_fails_without_a_directory() {
    assert!(matches!(
        LocalWallet::try_load_from(None),
        Err(Error::WalletNotFound)
    ));
}

#[test]
fn try_load_from_makes_no_wallet_in_an_empty_directory() {
    // A directory that holds neither a key nor a ledger holds no wallet.
    assert!(matches!(
        LocalWallet::try_load_from(Some(WalletDir::new())),
        Err(Error::WalletNotFound)
    ));
    let mut only_what_came_in = WalletDir::new();
    only_what_came_in.create_received_cash_notes_dir();
    only_what_came_in.set_unconfirmed_txs_file(vec![0; 8]);
    assert!(matches!(
        LocalWallet::try_load_from(Some(only_what_came_in)),
        Err(Error::WalletNotFound)
    ));

    // The plain load makes one there: key and ledger are made and saved.
    let wallet = LocalWallet::load_from(Some(WalletDir::new())).expect("A new wallet.");
    assert_eq!(0, wallet.balance().as_nano());
    assert!(wallet.wallet_dir().get_main_key().is_some());
    assert_eq!(
        Ok(Some(KeyLessWallet::new())),
        wallet.wallet_dir().get_wallet()
    );
    assert_eq!(
        Some(&KeyLessWallet::new().to_bytes()),
        wallet.wallet_dir().wallet_file()
    );
    assert_eq!(
        Some(&vec![]),
        wallet.wallet_dir().received_cash_notes()
    );

    // What it left is found by the strict load.
    let again = LocalWallet::try_load_from(Some(wallet.wallet_dir().clone()))
        .expect("The wallet to load.");
    assert_eq!(wallet.address(), again.address());

    // A key alone, or a ledger alone, is state enough.
    let mut key_only = WalletDir::new();
    let key = MainSecretKey::random();
    key_only.store_new_keypair(&key);
    let loaded = LocalWallet::try_load_from(Some(key_only)).expect("The wallet to load.");
    assert_eq!(key.main_pubkey(), loaded.address());
    let mut ledger_only = WalletDir::new();
    ledger_only.store_wallet(&KeyLessWallet::new());
    assert!(LocalWallet::try_load_from(Some(ledger_only)).is_ok());
}

#[test]
fn loaded_wallet_has_the_key_on_file_or_the_key_given() {
    let given = MainSecretKey::random();
    let first = LocalWallet::load_from_main_key(None, given.clone()).expect("A new wallet.");
    assert_eq!(given.main_pubkey(), first.address());
    assert_eq!(given.sign(b"a message"), first.sign(b"a message"));
    assert_eq!(
        given.derive_key(&[1u8; 32]).unique_pubkey(),
        first.derive_key(&[1u8; 32]).unique_pubkey()
    );

    let other = MainSecretKey::random();
    let second = LocalWallet::load_from_main_key(Some(first.wallet_dir().clone()), other)
        .expect("The wallet to load.");
    assert_eq!(given.sign(b"a message"), second.sign(b"a message"));
    let third =
        LocalWallet::load_from(Some(first.wallet_dir().clone())).expect("The wallet to load.");
    assert_eq!(given.sign(b"a message"), third.sign(b"a message"));
    let on_file = first
        .wallet_dir()
        .get_main_key()
        .expect("A key on file.");
    assert_eq!(given.secret_key(), on_file.secret_key());
}

#[test]
fn send_reaches_the_files_before_it_returns() {
    let mut sender = LocalWallet::load_from(None).expect("A new wallet.");
    let address = sender.address();
    sender
        .deposit(&vec![
            cash_note_for(&address, [60u8; 32], 700),
            cash_note_for(&address, [61u8; 32], 300),
        ])
        .expect("A deposit.");

    // Handing in reached the ledger file.
    let after_deposit =
        LocalWallet::load_from(Some(sender.wallet_dir().clone())).expect("The wallet to load.");
    assert_eq!(sender.wallet(), after_deposit.wallet());
    assert_eq!(1000, after_deposit.balance().as_nano());

    let bob = MainSecretKey::random().main_pubkey();
    sender
        .local_send(vec![(Nano::from(150), bob)], None, create_offline_transfer)
        .expect("A transfer.");

    // No store call in between: the send itself saved ledger and spends.
    let after_send =
        LocalWallet::load_from(Some(sender.wallet_dir().clone())).expect("The wallet to load.");
    assert_eq!(sender.address(), after_send.address());
    assert_eq!(sender.wallet(), after_send.wallet());
    assert_eq!(sender.unconfirmed_txs(), after_send.unconfirmed_txs());
    assert_eq!(850, after_send.balance().as_nano());
    assert_eq!(1, after_send.wallet().cash_notes_created_for_others().len());
    assert!(after_send.unconfirmed_txs_exist());

    // So did the payment for storage, the index included.
    sender
        .local_send_storage_payment(
            vec![(ContentAddress::new([3u8; 32]), vec![(bob, Nano::from(50))])],
            None,
            create_offline_transfer,
        )
        .expect("A payment.");
    let mut after_payment =
        LocalWallet::load_from(Some(sender.wallet_dir().clone())).expect("The wallet to load.");
    assert_eq!(sender.wallet(), after_payment.wallet());
    assert_eq!(sender.unconfirmed_txs(), after_payment.unconfirmed_txs());
    assert_eq!(
        sender.get_payment_unique_pubkeys(&ContentAddress::new([3u8; 32])),
        after_payment.get_payment_unique_pubkeys(&ContentAddress::new([3u8; 32]))
    );

    // Taking in an index and forgetting the spends reach the files too.
    let mut proofs = ContentPaymentsIdMap::new();
    proofs.insert(ContentAddress::new([4u8; 32]), vec![UniquePubkey::new([1u8; 48])]);
    after_payment.add_content_payments_map(proofs);
    after_payment.clear_unconfirmed_txs();
    let last = LocalWallet::load_from(Some(after_payment.wallet_dir().clone()))
        .expect("The wallet to load.");
    assert_eq!(after_payment.wallet(), last.wallet());
    assert!(!last.unconfirmed_txs_exist());
}

#[test]
fn spendable_cash_notes_come_in_ascending_order_of_identity() {
    let key = MainSecretKey::random();
    let address = key.main_pubkey();
    let notes: Vec<CashNote> = (0u8..8)
        .map(|seed| cash_note_for(&address, [seed; 32], 10 + seed as u64))
        .collect();
    let mut wallet = LocalWallet::new(key, WalletDir::new());
    wallet.deposit(&notes).expect("A deposit.");

    let spendable = wallet.available_cash_notes();

    let mut ascending = notes.clone();
    ascending.sort_by_key(|note| note.unique_pubkey().to_bytes());
    assert_eq!(
        ascending,
        spendable
            .iter()
            .map(|(note, _)| note.clone())
            .collect::<Vec<CashNote>>()
    );
    for (note, derived_key) in spendable.iter() {
        assert_eq!(note.unique_pubkey(), derived_key.unique_pubkey());
    }

    // The builder is handed them in that order, so the lowest is spent first.
    let bob = MainSecretKey::random().main_pubkey();
    wallet
        .local_send(vec![(Nano::from(1), bob)], None, create_offline_transfer)
        .expect("A transfer.");
    assert_eq!(
        &vec![ascending[0].unique_pubkey()],
        wallet.wallet().spent_cash_notes()
    );

    let id = |first: u8| {
        let mut bytes = [0u8; 48];
        bytes[0] = first;
        UniquePubkey::new(bytes)
    };
    let mut low_last = [7u8; 48];
    low_last[47] = 0;
    let sorted = local_wallet::order::in_ascending_order(&vec![
        (id(2), Nano::from(2)),
        (UniquePubkey::new([7u8; 48]), Nano::from(7)),
        (id(1), Nano::from(1)),
        (UniquePubkey::new(low_last), Nano::from(6)),
        (id(0), Nano::from(0)),
    ]);
    assert_eq!(
        vec![
            (id(0), Nano::from(0)),
            (id(1), Nano::from(1)),
            (id(2), Nano::from(2)),
            (UniquePubkey::new(low_last), Nano::from(6)),
            (UniquePubkey::new([7u8; 48]), Nano::from(7)),
        ],
        sorted
    );
    assert!(local_wallet::order::comes_before(&id(1), &id(2)));
    assert!(!local_wallet::order::comes_before(&id(2), &id(1)));
    assert!(!local_wallet::order::comes_before(&id(1), &id(1)));
}

#[test]
fn load_keeps_the_key_that_is_on_file() {
    let on_file = MainSecretKey::random();
    let given = MainSecretKey::random();
    assert_ne!(on_file.main_pubkey(), given.main_pubkey());

    let first = LocalWallet::load_from_main_key(None, on_file.clone()).expect("A new wallet.");
    assert_eq!(on_file.main_pubkey(), first.address());

    let second = LocalWallet::load_from_main_key(Some(first.wallet_dir().clone()), given)
        .expect("The wallet to load.");
    assert_eq!(on_file.main_pubkey(), second.address());

    let third =
        LocalWallet::load_from(Some(second.wallet_dir().clone())).expect("The wallet to load.");
    assert_eq!(on_file.main_pubkey(), third.address());

    // Without a key on file and without a key given, each wallet gets its own.
    let fresh = LocalWallet::load_from(None).expect("A new wallet.");
    let other = LocalWallet::load_from(None).expect("A new wallet.");
    assert_ne!(fresh.address(), other.address());
}

#[test]
fn saved_spends_load_back_in_order_each_once() {
    let mut file = vec![];
    local_wallet::codec::append_list(
        &mut file,
        &vec![
            spend_request(3),
            spend_request(1),
            spend_request(3),
            spend_request(2),
            spend_request(1),
        ],
    );
    let mut wallet_dir = WalletDir::new();
    wallet_dir.set_unconfirmed_txs_file(file.clone());

    let mut wallet = LocalWallet::load_from(Some(wallet_dir)).expect("The wallet to load.");

    assert!(wallet.unconfirmed_txs_exist());
    assert_eq!(
        &vec![spend_request(3), spend_request(1), spend_request(2)],
        wallet.unconfirmed_txs()
    );

    // Loading leaves the file as it is.
    assert_eq!(Some(&file), wallet.wallet_dir().unconfirmed_txs_file());
    wallet
        .store_unconfirmed_txs()
        .expect("The spends to be saved.");
    assert_eq!(
        Some(3 * 216 + 8),
        wallet
            .wallet_dir()
            .unconfirmed_txs_file()
            .map(|bytes| bytes.len())
    );

    wallet.clear_unconfirmed_txs();
    assert!(!wallet.unconfirmed_txs_exist());
    assert!(wallet.unconfirmed_txs().is_empty());
    assert_eq!(
        Some(&vec![0u8; 8]),
        wallet.wallet_dir().unconfirmed_txs_file()
    );
    assert_eq!(
        Ok(Some(PendingSpends::new())),
        wallet.wallet_dir().get_unconfirmed_txs()
    );
}

#[test]
fn saved_spends_are_written_in_216_bytes_each() {
    let mut pending = PendingSpends::new();
    let mut request = spend_request(7);
    request.amount = Nano::from(0x0102_0304_0506_0708);
    request.reason = local_wallet::cash_note::Hash::new([9u8; 32]);
    pending.add(request);
    pending.add(spend_request(8));

    let bytes = pending.to_bytes();

    assert_eq!(8 + 2 * 216, bytes.len());
    assert_eq!([2u8, 0, 0, 0, 0, 0, 0, 0], bytes[..8]);
    assert_eq!([7u8; 48], bytes[8..56]);
    assert_eq!([7u8; 32], bytes[56..88]);
    assert_eq!([9u8; 32], bytes[88..120]);
    assert_eq!([8u8, 7, 6, 5, 4, 3, 2, 1], bytes[120..128]);
    assert_eq!([7u8; 96], bytes[128..224]);
    assert_eq!([8u8; 48], bytes[224..272]);
    assert_eq!(Ok(pending), PendingSpends::from_bytes(&bytes));

    // One byte too few, one too many, or a number that promises too much.
    assert_eq!(
        Err(Error::MalformedUnconfirmedTxs),
        PendingSpends::from_bytes(&bytes[..bytes.len() - 1])
    );
    let mut longer = bytes.clone();
    longer.push(0);
    assert_eq!(
        Err(Error::MalformedUnconfirmedTxs),
        PendingSpends::from_bytes(&longer)
    );
    let mut greedy = bytes.clone();
    greedy[0] = 3;
    assert_eq!(
        Err(Error::MalformedUnconfirmedTxs),
        PendingSpends::from_bytes(&greedy)
    );
    assert_eq!(
        Err(Error::MalformedUnconfirmedTxs),
        PendingSpends::from_bytes(&[0xff; 8])
    );
    assert_eq!(
        Err(Error::MalformedUnconfirmedTxs),
        PendingSpends::from_bytes(&[])
    );
    assert_eq!(Ok(PendingSpends::new()), PendingSpends::from_bytes(&[0; 8]));
}

#[test]
fn ledger_is_read_back_from_its_bytes() {
    let id = |seed: u8| UniquePubkey::new([seed; 48]);
    let mut payments = ContentPaymentsIdMap::new();
    payments.insert(ContentAddress::new([6u8; 32]), vec![id(7), id(8)]);
    payments.insert(ContentAddress::new([9u8; 32]), vec![]);
    let ledger = KeyLessWallet::from_parts(
        vec![(id(1), Nano::from(0x0100)), (id(2), Nano::from(3))],
        vec![id(3)],
        vec![id(4), id(5)],
        payments,
    )
    .expect("A ledger in order.");

    let bytes = ledger.to_bytes();

    let mut expected: Vec<u8> = vec![];
    expected.extend_from_slice(&2u64.to_le_bytes());
    expected.extend_from_slice(&[1u8; 48]);
    expected.extend_from_slice(&[0, 1, 0, 0, 0, 0, 0, 0]);
    expected.extend_from_slice(&[2u8; 48]);
    expected.extend_from_slice(&[3, 0, 0, 0, 0, 0, 0, 0]);
    expected.extend_from_slice(&1u64.to_le_bytes());
    expected.extend_from_slice(&[3u8; 48]);
    expected.extend_from_slice(&2u64.to_le_bytes());
    expected.extend_from_slice(&[4u8; 48]);
    expected.extend_from_slice(&[5u8; 48]);
    expected.extend_from_slice(&2u64.to_le_bytes());
    expected.extend_from_slice(&[6u8; 32]);
    expected.extend_from_slice(&2u64.to_le_bytes());
    expected.extend_from_slice(&[7u8; 48]);
    expected.extend_from_slice(&[8u8; 48]);
    expected.extend_from_slice(&[9u8; 32]);
    expected.extend_from_slice(&0u64.to_le_bytes());
    assert_eq!(expected, bytes);

    assert_eq!(Ok(ledger), KeyLessWallet::from_bytes(&bytes));
    assert_eq!(
        Ok(KeyLessWallet::new()),
        KeyLessWallet::from_bytes(&KeyLessWallet::new().to_bytes())
    );
    assert_eq!(vec![0u8; 32], KeyLessWallet::new().to_bytes());
}

#[test]
fn load_fails_on_files_that_cannot_be_read() {
    let id = |seed: u8| UniquePubkey::new([seed; 48]);
    let good = KeyLessWallet::from_parts(
        vec![(id(1), Nano::from(5))],
        vec![],
        vec![id(2)],
        ContentPaymentsIdMap::new(),
    )
    .expect("A ledger in order.")
    .to_bytes();
    assert!(KeyLessWallet::from_bytes(&good).is_ok());

    // Cut short, too long, or with a number that promises too much.
    let mut longer = good.clone();
    longer.push(0);
    let mut greedy = good.clone();
    greedy[0] = 2;
    // Bytes that stand for a ledger that is not in order: the cash note that
    // is available is the one that is spent.
    let mut both = good.clone();
    let spent_at = good.len() - 8 - 48;
    both[spent_at..spent_at + 48].copy_from_slice(&[1u8; 48]);
    // The same content address twice.
    let mut twice = vec![0u8; 24];
    twice.extend_from_slice(&2u64.to_le_bytes());
    for _ in 0..2 {
        twice.extend_from_slice(&[7u8; 32]);
        twice.extend_from_slice(&0u64.to_le_bytes());
    }
    let mut once = twice.clone();
    once[24 + 8] = 8;
    assert!(KeyLessWallet::from_bytes(&once).is_ok());

    for bad in [
        good[..good.len() - 1].to_vec(),
        longer,
        greedy,
        both,
        twice,
        vec![],
        vec![0xff; 32],
    ] {
        assert_eq!(
            Err(Error::MalformedWallet),
            KeyLessWallet::from_bytes(&bad)
        );
        let mut wallet_dir = WalletDir::new();
        wallet_dir.set_wallet_file(bad);
        assert_eq!(Err(Error::MalformedWallet), wallet_dir.get_wallet());
        assert!(matches!(
            LocalWallet::load_from(Some(wallet_dir.clone())),
            Err(Error::MalformedWallet)
        ));
        assert!(matches!(
            LocalWallet::try_load_from(Some(wallet_dir.clone())),
            Err(Error::MalformedWallet)
        ));
        assert!(matches!(
            LocalWallet::load_from_main_key(Some(wallet_dir), MainSecretKey::random()),
            Err(Error::MalformedWallet)
        ));
    }

    let mut wallet_dir = WalletDir::new();
    wallet_dir.set_wallet_file(good);
    wallet_dir.set_unconfirmed_txs_file(vec![1, 0, 0, 0, 0, 0, 0, 0]);
    assert_eq!(
        Err(Error::MalformedUnconfirmedTxs),
        wallet_dir.get_unconfirmed_txs()
    );
    assert!(matches!(
        LocalWallet::load_from(Some(wallet_dir.clone())),
        Err(Error::MalformedUnconfirmedTxs)
    ));
    wallet_dir.set_unconfirmed_txs_file(vec![0; 8]);
    let wallet = LocalWallet::load_from(Some(wallet_dir)).expect("The wallet to load.");
    assert_eq!(5, wallet.balance().as_nano());
    assert_eq!(&vec![id(2)], wallet.wallet().spent_cash_notes());
}

#[test]
fn pending_spends_keep_the_order_in_which_they_were_first_added() {
    let mut pending = PendingSpends::new();
    assert!(pending.is_empty());
    assert_eq!(0, pending.len());

    pending.add(spend_request(2));
    pending.add(spend_request(1));
    pending.add(spend_request(2));
    pending.add_all(&vec![spend_request(3), spend_request(1), spend_request(0)]);

    assert!(!pending.is_empty());
    assert_eq!(4, pending.len());
    assert_eq!(
        &vec![
            spend_request(2),
            spend_request(1),
            spend_request(3),
            spend_request(0)
        ],
        pending.snapshot()
    );
    assert!(pending.contains(&spend_request(3)));
    assert!(!pending.contains(&spend_request(4)));

    // A request that differs in one field only is another request.
    let mut other = spend_request(3);
    other.signature[95] = 0;
    assert!(!pending.contains(&other));
    pending.add(other);
    assert_eq!(5, pending.len());

    pending.clear();
    assert!(pending.is_empty());
    assert_eq!(&Vec::<SpendRequest>::new(), pending.snapshot());
}

#[test]
fn from_parts_takes_only_a_ledger_that_is_in_order() {
    let id = |seed: u8| UniquePubkey::new([seed; 48]);
    let ledger = KeyLessWallet::from_parts(
        vec![(id(1), Nano::from(5)), (id(2), Nano::from(6))],
        vec![id(3)],
        vec![id(4), id(5)],
        ContentPaymentsIdMap::new(),
    )
    .expect("A ledger in order.");
    assert_eq!(11, ledger.balance().as_nano());
    assert_eq!(Some(Nano::from(6)), ledger.available_amount(&id(2)));
    assert_eq!(None, ledger.available_amount(&id(4)));
    assert!(ledger.is_spent(&id(4)));
    assert!(!ledger.is_spent(&id(1)));

    // A cash note listed twice as available.
    assert_eq!(
        Err(Error::MalformedWallet),
        KeyLessWallet::from_parts(
            vec![(id(1), Nano::from(5)), (id(1), Nano::from(6))],
            vec![],
            vec![],
            ContentPaymentsIdMap::new(),
        )
    );
    // A cash note both available and spent.
    assert_eq!(
        Err(Error::MalformedWallet),
        KeyLessWallet::from_parts(
            vec![(id(1), Nano::from(5))],
            vec![],
            vec![id(2), id(1)],
            ContentPaymentsIdMap::new(),
        )
    );
    // A cash note listed twice as spent, or twice as made for others.
    assert_eq!(
        Err(Error::MalformedWallet),
        KeyLessWallet::from_parts(vec![], vec![], vec![id(2), id(2)], ContentPaymentsIdMap::new())
    );
    assert_eq!(
        Err(Error::MalformedWallet),
        KeyLessWallet::from_parts(vec![], vec![id(2), id(2)], vec![], ContentPaymentsIdMap::new())
    );
    // A balance past 64 bits.
    assert_eq!(
        Err(Error::MalformedWallet),
        KeyLessWallet::from_parts(
            vec![(id(1), Nano::from(u64::MAX)), (id(2), Nano::from(1))],
            vec![],
            vec![],
            ContentPaymentsIdMap::new(),
        )
    );
}

#[test]
fn ledger_passes_over_spent_cash_notes_and_replaces_amounts() {
    let id = |seed: u8| UniquePubkey::new([seed; 48]);
    let mut ledger = KeyLessWallet::new();
    assert_eq!(Ok(true), ledger.insert_available(id(1), Nano::from(5)));
    assert_eq!(Ok(true), ledger.insert_available(id(2), Nano::from(u64::MAX - 5)));
    assert_eq!(
        Err(Error::BalanceOverflow),
        ledger.insert_available(id(3), Nano::from(1))
    );
    // Another amount under the same identity takes the place of the old one.
    assert_eq!(
        Err(Error::BalanceOverflow),
        ledger.insert_available(id(1), Nano::from(6))
    );
    assert_eq!(Ok(true), ledger.insert_available(id(1), Nano::from(2)));
    assert_eq!(u64::MAX - 3, ledger.balance().as_nano());
    assert_eq!(
        &vec![(id(1), Nano::from(2)), (id(2), Nano::from(u64::MAX - 5))],
        ledger.available_cash_notes()
    );

    ledger.mark_spent(&vec![id(2), id(9), id(2)]);
    assert_eq!(&vec![id(2), id(9)], ledger.spent_cash_notes());
    assert_eq!(Ok(false), ledger.insert_available(id(2), Nano::from(1)));
    assert_eq!(2, ledger.balance().as_nano());

    ledger.mark_created_for_others(&vec![id(7), id(8), id(7)]);
    assert_eq!(&vec![id(7), id(8)], ledger.cash_notes_created_for_others());
}

// Keys, names and transfers.

#[test]
fn signature_verifies_under_the_address() {
    let key = MainSecretKey::random();
    let wallet = LocalWallet::new(key.clone(), WalletDir::new());
    let public_key =
        blsttc::PublicKey::from_bytes(wallet.address().to_bytes()).expect("A valid public key.");

    let signature = wallet.sign(b"to whom it may concern");
    let read = blsttc::Signature::from_bytes(signature.bytes).expect("A valid signature.");

    assert!(public_key.verify(&read, b"to whom it may concern"));
    assert!(!public_key.verify(&read, b"to whom it may not concern"));
    assert_eq!(signature, key.sign(b"to whom it may concern"));
    assert_ne!(signature, key.sign(b"to whom it may not concern"));
    assert_eq!(public_key, key.secret_key().public_key());
}

#[test]
fn main_key_computes_what_the_secret_computes() {
    let secret = blsttc::SecretKey::random();
    let key = MainSecretKey::new(secret.clone());
    let index = [44u8; 32];

    assert_eq!(&secret, key.secret_key());
    assert_eq!(&secret, key.clone().secret_key());
    assert_eq!(secret.public_key().to_bytes(), key.main_pubkey().to_bytes());
    assert_eq!(secret.sign(b"a message").to_bytes(), key.sign(b"a message").bytes);

    let child = secret.derive_child(&index);
    let derived = key.derive_key(&index);
    assert_eq!(
        child.public_key().to_bytes(),
        derived.unique_pubkey().to_bytes()
    );
    assert_eq!(
        child.sign(b"a message").to_bytes(),
        derived.sign(b"a message").bytes
    );
    assert_ne!(key.sign(b"a message"), derived.sign(b"a message"));

    // Two keys drawn at random differ.
    assert_ne!(
        MainSecretKey::random().main_pubkey(),
        MainSecretKey::random().main_pubkey()
    );
}

#[test]
fn derived_key_spends_the_cash_note_made_with_the_index() {
    let key = MainSecretKey::random();
    let wallet = LocalWallet::new(key.clone(), WalletDir::new());
    let index = [42u8; 32];

    let derived = wallet.derive_key(&index);
    assert_eq!(wallet.address(), derived.main_pubkey());
    assert_eq!(index, derived.derivation_index());

    assert_eq!(
        unique_pubkey_for(&wallet.address(), &index),
        derived.unique_pubkey()
    );
    assert_ne!(wallet.address().to_bytes(), derived.unique_pubkey().to_bytes());
    assert_ne!(
        derived.unique_pubkey(),
        wallet.derive_key(&[43u8; 32]).unique_pubkey()
    );
    let note_key =
        blsttc::PublicKey::from_bytes(derived.unique_pubkey().to_bytes()).expect("A valid key.");
    let signature =
        blsttc::Signature::from_bytes(derived.sign(b"spend").bytes).expect("A valid signature.");
    assert!(note_key.verify(&signature, b"spend"));
}

#[test]
fn cash_note_file_name_is_the_hex_of_the_xor_name() {
    let id = UniquePubkey::new([0xabu8; 48]);
    let name = cash_note_file_name(&id);

    assert_eq!(
        format!(
            "{}.cash_note",
            hex::encode(xor_name::XorName::from_content(&[0xabu8; 48]).0)
        ),
        name
    );
    assert_eq!(64 + ".cash_note".len(), name.len());
    assert_ne!(name, cash_note_file_name(&UniquePubkey::new([0xacu8; 48])));
}

#[test]
fn unwrap_transfer_reads_the_claims_made_out_to_the_wallet() {
    let key = MainSecretKey::random();
    let wallet = LocalWallet::new(key.clone(), WalletDir::new());
    let public_key =
        blsttc::PublicKey::from_bytes(wallet.address().to_bytes()).expect("A valid public key.");
    let stranger = MainSecretKey::random().secret_key().public_key();

    let first = local_wallet::CashNoteRedemption {
        derivation_index: [1u8; 32],
        parent_spend: [2u8; 32],
    };
    let second = local_wallet::CashNoteRedemption {
        derivation_index: [3u8; 32],
        parent_spend: [4u8; 32],
    };
    assert_eq!(68, first.to_bytes().len());
    assert_eq!(b"CNR\x01", &first.to_bytes()[..4]);
    assert_eq!([1u8; 32], first.to_bytes()[4..36]);
    assert_eq!([2u8; 32], first.to_bytes()[36..]);
    assert_eq!(
        Some(first),
        local_wallet::CashNoteRedemption::from_bytes(&first.to_bytes())
    );
    assert_eq!(
        None,
        local_wallet::CashNoteRedemption::from_bytes(&vec![0u8; 68])
    );
    assert_eq!(
        None,
        local_wallet::CashNoteRedemption::from_bytes(&first.to_bytes()[..67].to_vec())
    );

    let transfer = local_wallet::Transfer::Encrypted(vec![
        public_key.encrypt(first.to_bytes()).to_bytes(),
        stranger.encrypt(second.to_bytes()).to_bytes(),
        vec![1, 2, 3],
        public_key.encrypt(vec![9u8; 10]).to_bytes(),
        public_key.encrypt(second.to_bytes()).to_bytes(),
    ]);
    assert_eq!(Ok(vec![first, second]), wallet.unwrap_transfer(transfer));

    let not_for_us = local_wallet::Transfer::Encrypted(vec![
        stranger.encrypt(first.to_bytes()).to_bytes(),
    ]);
    assert_eq!(
        Err(Error::FailedToDecypherTransfer),
        wallet.unwrap_transfer(not_for_us)
    );
    assert_eq!(
        Err(Error::FailedToDecypherTransfer),
        wallet.unwrap_transfer(local_wallet::Transfer::Encrypted(vec![]))
    );

    let royalties = local_wallet::Transfer::NetworkRoyalties(vec![second, first]);
    assert_eq!(Ok(vec![second, first]), wallet.unwrap_transfer(royalties));
}

#[test]
fn amounts_add_up_or_report_that_they_do_not() {
    assert_eq!(0, Nano::zero().as_nano());
    assert_eq!(
        Some(Nano::from(12)),
        Nano::from(5).checked_add(Nano::from(7))
    );
    assert_eq!(
        Some(Nano::from(u64::MAX)),
        Nano::from(u64::MAX - 1).checked_add(Nano::from(1))
    );
    assert_eq!(None, Nano::from(u64::MAX).checked_add(Nano::from(1)));
}
