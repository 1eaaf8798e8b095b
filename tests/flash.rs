use grapple_bundle::bundle::make_index;
use grapple_bundle::flash::{parse_key, FlashAction, FlashError, HwStep};
use grapple_bundle::register::{field_mask, merge_field, plan_field_write, FieldWriteError, RegisterWrite};
use grapple_bundle::resources::{Algo, AlgoRegistry, FlashAlgo, FlashOptionAlgo, RegistryError};
use grapple_bundle::svd::{get_svd_field, Field, FieldError, Peripheral, Register, RegisterMap};

#[test]
fn merge_nibble_into_register() {
    let after = merge_field(0x0000_00A0, 4, 4, 0xF);
    assert_eq!(after, 0x0000_00F0);
    let mask = field_mask(4) << 4;
    assert_eq!((0x0000_00A0u32 ^ after) & !mask, 0);
}

#[test]
fn merge_keeps_other_bits_and_truncates_value() {
    assert_eq!(merge_field(0xFFFF_FFFF, 8, 8, 0x1234), 0xFFFF_34FF);
    assert_eq!(merge_field(0x1234_5678, 0, 0, 0xFFFF), 0x1234_5678);
    assert_eq!(merge_field(0, 31, 1, 1), 0x8000_0000);
}

#[test]
fn masks() {
    assert_eq!(field_mask(0), 0);
    assert_eq!(field_mask(1), 1);
    assert_eq!(field_mask(4), 0xF);
    assert_eq!(field_mask(32), 0xFFFF_FFFF);
}

#[test]
fn cross_word_field_is_refused() {
    assert_eq!(plan_field_write((0x4000_0000, 30, 4), 1), Err(FieldWriteError::UnalignedField));
}

#[test]
fn whole_word_field_is_written_directly() {
    assert_eq!(
        plan_field_write((0x4000_0000, 0, 32), 0x4567_0123),
        Ok(RegisterWrite::Direct { address: 0x4000_0000, value: 0x4567_0123 })
    );
}

#[test]
fn sub_word_field_is_merged() {
    assert_eq!(
        plan_field_write((0x10, 4, 4), 0xF),
        Ok(RegisterWrite::ReadModifyWrite { address: 0x10, offset: 4, width: 4, value: 0xF })
    );
}

fn field(name: &str, bit_offset: u32, bit_width: u32) -> Field {
    Field { name: name.to_string(), bit_offset, bit_width }
}

fn map() -> RegisterMap {
    RegisterMap {
        peripherals: vec![
            Peripheral {
                name: "FLASH".to_string(),
                base_address: 0x4002_2000,
                registers: vec![
                    Register { name: "KEYR".to_string(), address_offset: 0x8, fields: vec![field("KEY", 0, 32)] },
                    Register {
                        name: "CR".to_string(),
                        address_offset: 0x14,
                        fields: vec![field("LOCK", 31, 1), field("OPTLOCK", 30, 1), field("WIDE", 30, 4)],
                    },
                    Register { name: "OPTKEYR".to_string(), address_offset: 0xC, fields: vec![field("OPTKEY", 0, 32)] },
                ],
            },
            Peripheral { name: "FLASH".to_string(), base_address: 0, registers: vec![] },
        ],
    }
}

#[test]
fn resolves_field_path() {
    assert_eq!(get_svd_field("FLASH/CR/LOCK", &map()), Ok((0x4002_2014, 31, 1)));
    assert_eq!(get_svd_field("FLASH/KEYR/KEY", &map()), Ok((0x4002_2008, 0, 32)));
    assert_eq!(get_svd_field("FLASH/CR/LOCK/extra", &map()), Ok((0x4002_2014, 31, 1)));
}

#[test]
fn field_path_errors() {
    assert_eq!(get_svd_field("GPIO/CR/LOCK", &map()), Err(FieldError::UnknownPeripheral));
    assert_eq!(get_svd_field("FLASH", &map()), Err(FieldError::MalformedPath));
    assert_eq!(get_svd_field("FLASH/SR/BSY", &map()), Err(FieldError::UnknownRegister));
    assert_eq!(get_svd_field("FLASH/CR", &map()), Err(FieldError::MalformedPath));
    assert_eq!(get_svd_field("FLASH/CR/NOPE", &map()), Err(FieldError::UnknownField));
    assert_eq!(get_svd_field("flash/CR/LOCK", &map()), Err(FieldError::UnknownPeripheral));
    assert_eq!(get_svd_field("", &map()), Err(FieldError::UnknownPeripheral));
}

#[test]
fn field_address_overflow() {
    let m = RegisterMap {
        peripherals: vec![Peripheral {
            name: "P".to_string(),
            base_address: u64::MAX,
            registers: vec![Register { name: "R".to_string(), address_offset: 1, fields: vec![field("F", 0, 1)] }],
        }],
    };
    assert_eq!(get_svd_field("P/R/F", &m), Err(FieldError::AddressOverflow));
}

#[test]
fn key_parsing() {
    assert_eq!(parse_key("0x45670123"), Some(0x4567_0123));
    assert_eq!(parse_key("CDEF89AB"), Some(0xCDEF_89AB));
    assert_eq!(parse_key("0xffffffff"), Some(u32::MAX));
    assert_eq!(parse_key("0x100000000"), None);
    assert_eq!(parse_key("0x"), None);
    assert_eq!(parse_key(""), None);
    assert_eq!(parse_key("0xG1"), None);
}

fn algo(pattern: &str, keys: &[&str]) -> Algo {
    Algo {
        pattern: pattern.to_string(),
        svd: "STM32G431.svd".to_string(),
        flash: FlashAlgo {
            unlock_key: keys.iter().map(|k| k.to_string()).collect(),
            key_path: "FLASH/KEYR/KEY".to_string(),
            lock_path: "FLASH/CR/LOCK".to_string(),
            option: FlashOptionAlgo {
                unlock_key: vec!["0x08192A3B".to_string(), "0x4C5D6E7F".to_string()],
                key_path: "FLASH/OPTKEYR/OPTKEY".to_string(),
            },
        },
    }
}

fn registry() -> AlgoRegistry {
    let mut r = AlgoRegistry::new();
    r.add(algo("^STM32G4", &["0x45670123", "0xCDEF89AB"]), map()).unwrap();
    r.add(algo("^STM32", &["0x1"]), map()).unwrap();
    r
}

#[test]
fn registry_lookup() {
    let r = registry();
    assert!(r.find("NRF52840").is_none());
    assert_eq!(r.find("STM32G431").unwrap().algo.pattern, "^STM32G4");
    assert_eq!(r.find("STM32F103").unwrap().algo.pattern, "^STM32");
}

#[test]
fn registry_without_match() {
    let mut r = AlgoRegistry::new();
    r.add(algo("^STM32F1", &[]), map()).unwrap();
    assert!(r.find("STM32G431").is_none());
}

#[test]
fn registry_rejects_bad_pattern() {
    let mut r = registry();
    assert_eq!(r.add(algo("(unclosed", &[]), map()), Err(RegistryError::BadPattern));
    assert_eq!(r.entries.len(), 2);
}

fn index() -> grapple_bundle::bundle::Index {
    make_index("fw.elf", "bl.elf", "cfg.json", "1.2.3", "0.4.0")
}

fn writes(steps: Vec<HwStep>) -> Vec<RegisterWrite> {
    steps
        .into_iter()
        .map(|s| match s {
            HwStep::Write(w) => w,
            HwStep::Program(_) => panic!("unexpected programming step"),
        })
        .collect()
}

#[test]
fn unlock_flash_writes_keys_in_order() {
    let steps = FlashAction::UnlockFlash.run(&registry(), "STM32G431", &index()).steps;
    assert_eq!(
        writes(steps),
        vec![
            RegisterWrite::Direct { address: 0x4002_2008, value: 0x4567_0123 },
            RegisterWrite::Direct { address: 0x4002_2008, value: 0xCDEF_89AB },
        ]
    );
}

#[test]
fn unlock_option_bytes_writes_option_keys() {
    let steps = FlashAction::UnlockOptBytes.run(&registry(), "STM32G431", &index()).steps;
    assert_eq!(
        writes(steps),
        vec![
            RegisterWrite::Direct { address: 0x4002_200C, value: 0x0819_2A3B },
            RegisterWrite::Direct { address: 0x4002_200C, value: 0x4C5D_6E7F },
        ]
    );
}

#[test]
fn lock_flash_sets_lock_bit() {
    let steps = FlashAction::LockFlash.run(&registry(), "STM32G431", &index()).steps;
    assert_eq!(
        writes(steps),
        vec![RegisterWrite::ReadModifyWrite { address: 0x4002_2014, offset: 31, width: 1, value: 1 }]
    );
}

#[test]
fn set_field_and_its_errors() {
    let set = FlashAction::SetField { path: "FLASH/CR/OPTLOCK".to_string(), value: 0 };
    assert_eq!(
        writes(set.run(&registry(), "STM32G431", &index()).steps),
        vec![RegisterWrite::ReadModifyWrite { address: 0x4002_2014, offset: 30, width: 1, value: 0 }]
    );
    let wide = FlashAction::SetField { path: "FLASH/CR/WIDE".to_string(), value: 1 };
    assert_eq!(wide.run(&registry(), "STM32G431", &index()).error.unwrap(), FlashError::UnalignedField);
    let unknown = FlashAction::SetField { path: "FLASH/CR/NOPE".to_string(), value: 1 };
    assert_eq!(
        unknown.run(&registry(), "STM32G431", &index()).error.unwrap(),
        FlashError::Field(FieldError::UnknownField)
    );
}

#[test]
fn unknown_chip_and_bad_key() {
    assert_eq!(FlashAction::LockFlash.run(&registry(), "NRF52", &index()).error.unwrap(), FlashError::UnknownChip);
    let mut r = AlgoRegistry::new();
    r.add(algo("G4", &["0xZZ"]), map()).unwrap();
    assert_eq!(FlashAction::UnlockFlash.run(&r, "STM32G431", &index()).error.unwrap(), FlashError::BadKey);
}

#[test]
fn programming_steps_name_artifacts() {
    match FlashAction::FlashFirmware.run(&registry(), "STM32G431", &index()).steps.as_slice() {
        [HwStep::Program(name)] => assert_eq!(name, "fw.elf"),
        _ => panic!("expected one programming step"),
    }
    match FlashAction::FlashBootloader.run(&registry(), "STM32G431", &index()).steps.as_slice() {
        [HwStep::Program(name)] => assert_eq!(name, "bl.elf"),
        _ => panic!("expected one programming step"),
    }
}

#[test]
fn bad_key_after_good_ones_writes_the_good_ones() {
    let mut r = AlgoRegistry::new();
    r.add(algo("G4", &["0x45670123", "0xZZ", "0xCDEF89AB"]), map()).unwrap();
    let plan = FlashAction::UnlockFlash.run(&r, "STM32G431", &index());
    assert_eq!(plan.error, Some(FlashError::BadKey));
    assert_eq!(writes(plan.steps), vec![RegisterWrite::Direct { address: 0x4002_2008, value: 0x4567_0123 }]);
}

#[test]
fn zero_width_field_at_word_end_is_merged() {
    assert_eq!(
        plan_field_write((0x10, 32, 0), 7),
        Ok(RegisterWrite::ReadModifyWrite { address: 0x10, offset: 32, width: 0, value: 7 })
    );
    assert_eq!(merge_field(0x1234_5678, 32, 0, 7), 0x1234_5678);
    assert_eq!(plan_field_write((0x10, 31, 2), 1), Err(FieldWriteError::UnalignedField));
    assert_eq!(plan_field_write((0x10, u32::MAX, 2), 1), Err(FieldWriteError::UnalignedField));
}
