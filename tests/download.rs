use rcxtool::binfmt::{RcxBin, Section, SectionType};
use rcxtool::download::{download, DeviceCommand, DownloadError, FinalBlock, Sound};

fn image(sections: Vec<Section>) -> RcxBin {
    RcxBin {
        signature: *b"RCXI",
        version: 1,
        section_count: sections.len() as u16,
        symbol_count: 0,
        target_type: 0,
        reserved: 0,
        sections,
        symbols: vec![],
    }
}

fn section(number: u8, data: Vec<u8>) -> Section {
    Section { ty: SectionType::Task, number, length: data.len() as u16, data }
}

#[test]
fn slot_ten_is_rejected() {
    let img = image(vec![section(0, vec![1, 2, 3])]);
    assert_eq!(download(&img, 10, FinalBlock::Natural), Err(DownloadError::InvalidSlot));
    assert_eq!(download(&img, 255, FinalBlock::Natural), Err(DownloadError::InvalidSlot));
}

#[test]
fn oversized_section_is_rejected() {
    let img = image(vec![section(0, vec![0; 70000])]);
    assert_eq!(download(&img, 0, FinalBlock::Natural), Err(DownloadError::SectionTooLarge));
}

#[test]
fn empty_image_downloads_prepare_and_tone_only() {
    let cmds = download(&image(vec![]), 9, FinalBlock::Natural).unwrap();
    assert_eq!(
        cmds,
        vec![
            DeviceCommand::StopAllTasks,
            DeviceCommand::SetProgramNumber(9),
            DeviceCommand::DeleteAllTasks,
            DeviceCommand::DeleteAllSubroutines,
            DeviceCommand::PlaySound(Sound::FastUpwardTones),
        ]
    );
}

#[test]
fn commands_follow_image_order() {
    let big: Vec<u8> = (0..300u32).map(|i| (i % 256) as u8).collect();
    let img = image(vec![section(5, big.clone()), section(2, vec![200, 100]), section(3, vec![])]);
    let cmds = download(&img, 4, FinalBlock::Natural).unwrap();
    assert_eq!(
        cmds,
        vec![
            DeviceCommand::StopAllTasks,
            DeviceCommand::SetProgramNumber(4),
            DeviceCommand::DeleteAllTasks,
            DeviceCommand::DeleteAllSubroutines,
            DeviceCommand::StartTaskDownload { number: 5, length: 300 },
            DeviceCommand::TransferData { index: 1, length: 256, data: big[..256].to_vec(), checksum: 128 },
            DeviceCommand::TransferData { index: 0, length: 44, data: big[256..].to_vec(), checksum: 178 },
            DeviceCommand::StartTaskDownload { number: 2, length: 2 },
            DeviceCommand::TransferData { index: 0, length: 2, data: vec![200, 100], checksum: 44 },
            DeviceCommand::StartTaskDownload { number: 3, length: 0 },
            DeviceCommand::PlaySound(Sound::FastUpwardTones),
        ]
    );
}

#[test]
fn zero_padding_changes_only_the_final_block() {
    let img = image(vec![section(1, vec![7, 8, 9])]);
    let cmds = download(&img, 0, FinalBlock::ZeroPadded).unwrap();
    let mut padded = vec![7, 8, 9];
    padded.resize(256, 0);
    assert_eq!(
        cmds[5],
        DeviceCommand::TransferData { index: 0, length: 256, data: padded, checksum: 24 }
    );
    assert_eq!(cmds.len(), 7);
}
