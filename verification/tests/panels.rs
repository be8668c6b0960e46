use icmc_gui::charmap_editor::CharmapEditor;
use icmc_gui::documentation::Documentation;
use icmc_gui::dock::{panel_placement, toggle_panel_step, OpenTabs, PanelAction, Placement, SplitSide};
use icmc_gui::log::LogPanel;
use icmc_gui::workspace::{clear_code_buffer, fill_code_buffer, open_in_editor};
use icmc_gui::memory_editor::{display_char, MemEditor};
use icmc_gui::radix::Radix;
use icmc_gui::state_panel::{status_label, EmuStatus, StatePanel};

#[test]
fn log_keeps_the_latest_thousand() {
    let mut l = LogPanel::default();
    for i in 0..1001 {
        l.add_log(format!("{i}"));
    }
    assert_eq!(l.logs().len(), 1000);
    assert_eq!(l.logs()[0], "1");
    assert_eq!(l.logs()[999], "1000");
    l.auto_scroll();
    assert!(l.take_auto_scroll());
    assert!(!l.take_auto_scroll());
    l.clear_logs();
    assert!(l.logs().is_empty());
}

#[test]
fn log_below_capacity_keeps_order() {
    let mut l = LogPanel::default();
    l.add_log("a".to_string());
    l.add_log("b".to_string());
    assert_eq!(l.logs(), &["a".to_string(), "b".to_string()]);
}

#[test]
fn radix_defaults_to_hex() {
    assert_eq!(Radix::default(), Radix::Hex);
}

#[test]
fn status_labels() {
    assert_eq!(status_label(true, EmuStatus::Halted), "Running");
    assert_eq!(status_label(false, EmuStatus::Paused), "Paused");
    assert_eq!(status_label(false, EmuStatus::BreakPoint), "Breakpoint");
    assert_eq!(status_label(false, EmuStatus::Halted), "Halted");
    assert_eq!(status_label(false, EmuStatus::UnknownInstruction), "Unknown Instruction");
    let mut p = StatePanel::default();
    assert_eq!(p.status(), "Paused");
    assert_eq!(p.last_regs(), [0; 8]);
    p.update_status(false, EmuStatus::Halted);
    p.record_registers([1, 2, 3, 4, 5, 6, 7, 8], [9, 8, 7, 6, 5, 4]);
    assert_eq!(p.status(), "Halted");
    assert_eq!(p.last_regs(), [1, 2, 3, 4, 5, 6, 7, 8]);
    assert_eq!(p.last_iregs(), [9, 8, 7, 6, 5, 4]);
    let _ = Documentation::default();
}

#[test]
fn memory_fields_show_every_base() {
    let mut m = MemEditor::default();
    assert_eq!(m.selected_index, Some(0));
    m.update_fields(0x12, 0xFFFF, None);
    assert_eq!(m.address, "0x0012");
    assert_eq!(m.edit_hex, "FFFF");
    assert_eq!(m.edit_octal, "177777");
    assert_eq!(m.edit_signed, "-1");
    assert_eq!(m.edit_unsigned, "65535");
    assert_eq!(m.edit_binary, "1111111111111111");
    m.edit_hex = "typing".to_string();
    m.update_fields(0x12345, 7, Some("hex"));
    assert_eq!(m.address, "0x12345");
    assert_eq!(m.edit_hex, "typing");
    assert_eq!(m.edit_octal, "000007");
    assert_eq!(m.edit_signed, "7");
    assert_eq!(m.edit_binary, "0000000000000111");
    m.update_fields(0, 0x8000, None);
    assert_eq!(m.edit_signed, "-32768");
}

#[test]
fn memory_selection_sync() {
    let mut m = MemEditor::default();
    let ram = [5u16, 6, 7];
    m.sync_selection(&ram);
    assert_eq!(m.edit_unsigned, "5");
    assert_eq!(m.last_selected_index, Some(0));
    m.selected_index = Some(2);
    m.sync_selection(&ram);
    assert_eq!(m.address, "0x0002");
    assert_eq!(m.edit_unsigned, "7");
    m.selected_index = Some(9);
    m.sync_selection(&ram);
    assert_eq!(m.edit_unsigned, "7");
    assert_eq!(m.last_selected_index, Some(9));
}

#[test]
fn memory_address_entry() {
    let mut m = MemEditor::default();
    m.address = "0x0x1F".to_string();
    m.commit_address(100);
    assert_eq!(m.selected_index, Some(31));
    assert_eq!(m.last_selected_index, None);
    assert_eq!(m.address, "0x001F");
    m.address = "0x200".to_string();
    m.commit_address(100);
    assert_eq!(m.selected_index, Some(31));
    assert_eq!(m.address, "0x200");
    m.address = " 1".to_string();
    m.commit_address(100);
    assert_eq!(m.selected_index, Some(31));
}

#[test]
fn memory_field_edits() {
    let mut m = MemEditor::default();
    m.edit_signed = " -2 ".to_string();
    assert_eq!(m.commit_field(3, "signed"), Some(0xFFFE));
    assert_eq!(m.edit_signed, " -2 ");
    assert_eq!(m.edit_hex, "FFFE");
    m.edit_unsigned = "70000".to_string();
    assert_eq!(m.commit_field(3, "unsigned"), None);
    assert_eq!(m.edit_unsigned, "70000");
    m.edit_binary = "101".to_string();
    assert_eq!(m.commit_field(3, "binary"), Some(5));
    assert_eq!(m.edit_unsigned, "5");
    m.edit_octal = "+17".to_string();
    assert_eq!(m.commit_field(3, "octal"), Some(15));
    m.edit_hex = "fF".to_string();
    assert_eq!(m.commit_field(3, "hex"), Some(255));
    m.edit_signed = "-32769".to_string();
    assert_eq!(m.commit_field(3, "signed"), None);
    assert_eq!(m.commit_field(3, "other"), None);
    m.export();
    m.import();
    assert_eq!(m.edit_hex, "fF");
}

#[test]
fn memory_cell_characters() {
    assert_eq!(display_char(0x4141), 'A');
    assert_eq!(display_char(0x007E), '~');
    assert_eq!(display_char(0x0100), '.');
    assert_eq!(display_char(0x001F), '.');
}

#[test]
fn charmap_editor_state() {
    let mut e = CharmapEditor::default();
    assert_eq!(e.current_char, 65);
    e.sync_scratch_size((3, 2));
    assert_eq!(e.scratch, vec![(0, 0); 6]);
    e.current_color = 300;
    e.stamp(2, 1);
    assert_eq!(e.scratch[5], (65, 44));
    e.sync_scratch_size((3, 2));
    assert_eq!(e.scratch[5], (65, 44));
    e.pick_char(3, 1, 40);
    assert_eq!(e.current_char, 35);
    e.pick_char(0, 5, 40);
    assert_eq!(e.current_char, 35);
    e.pick_color(2, 1, 30);
    assert_eq!(e.current_color, 10);
    e.clamp_selection(30, 5);
    assert_eq!((e.current_char, e.current_color), (0, 0));
}

#[test]
fn glyph_drag_toggles_each_cell_once() {
    let mut e = CharmapEditor::default();
    e.current_char = 2;
    assert_eq!(e.glyph_input(true, false, false, Some((1, 3)), 8), Some((1, 19)));
    assert_eq!(e.glyph_input(false, true, false, Some((1, 3)), 8), None);
    assert_eq!(e.glyph_input(false, true, false, Some((2, 3)), 8), Some((2, 19)));
    assert_eq!(e.glyph_input(false, false, true, None, 8), None);
    assert_eq!(e.glyph_drag_last, None);
}

#[test]
fn builds_leave_one_message() {
    let mut l = LogPanel::default();
    l.add_log("old".to_string());
    l.report_build(Ok(()));
    assert_eq!(l.logs(), &["Assembly successful".to_string()]);
    assert!(l.take_auto_scroll());
    l.report_build(Err("line 3: unknown mnemonic".to_string()));
    assert_eq!(l.logs(), &["Error: line 3: unknown mnemonic".to_string()]);
}

#[test]
fn panels_are_placed() {
    assert_eq!(panel_placement("Documentation", false), Placement::Window);
    assert_eq!(panel_placement("Charmap Editor", true), Placement::Window);
    assert_eq!(panel_placement("Log", true), Placement::FocusedLeaf);
    assert_eq!(
        panel_placement("Log", false),
        Placement::Split { beside_editor: true, side: SplitSide::Below, tenths: 7 }
    );
    assert_eq!(
        panel_placement("Memory Editor", false),
        Placement::Split { beside_editor: true, side: SplitSide::Right, tenths: 6 }
    );
    assert_eq!(
        panel_placement("File Explorer", false),
        Placement::Split { beside_editor: true, side: SplitSide::Right, tenths: 8 }
    );
    assert_eq!(
        panel_placement("Screen", false),
        Placement::Split { beside_editor: false, side: SplitSide::Right, tenths: 8 }
    );
}

#[test]
fn code_buffer_fill_and_clear() {
    let mut buf: Option<String> = None;
    clear_code_buffer(&mut buf);
    assert!(buf.is_none());
    fill_code_buffer(&mut buf, "NOP");
    assert_eq!(buf.as_deref(), Some("NOP"));
    fill_code_buffer(&mut buf, "HALT");
    assert_eq!(buf.as_deref(), Some("NOP"));
    clear_code_buffer(&mut buf);
    assert_eq!(buf.as_deref(), Some(""));
}

#[test]
fn shown_address_reads_back() {
    let ram: Vec<u16> = (0..300).collect();
    let mut m = MemEditor::default();
    m.selected_index = Some(0x12A);
    m.sync_selection(&ram);
    assert_eq!(m.address, "0x012A");
    m.commit_address(ram.len());
    assert_eq!(m.selected_index, Some(0x12A));
    assert_eq!(m.address, "0x012A");
}

#[test]
fn fields_have_fixed_widths_and_read_back() {
    let mut m = MemEditor::default();
    for v in [0u16, 7, 0x7FFF, 0x8000, 0xFFFF] {
        m.update_fields(3, v, None);
        assert_eq!(m.address, "0x0003");
        assert_eq!(m.edit_hex.len(), 4);
        assert_eq!(m.edit_octal.len(), 6);
        assert_eq!(m.edit_binary.len(), 16);
        assert_eq!(u16::from_str_radix(&m.edit_hex, 16), Ok(v));
        assert_eq!(u16::from_str_radix(&m.edit_octal, 8), Ok(v));
        assert_eq!(u16::from_str_radix(&m.edit_binary, 2), Ok(v));
        assert_eq!(m.edit_unsigned.parse::<u16>(), Ok(v));
        assert_eq!(m.edit_signed.parse::<i16>(), Ok(v as i16));
    }
    m.edit_hex = "zz".to_string();
    m.update_fields(4, 9, Some("hex"));
    assert_eq!(m.edit_hex, "zz");
    assert_eq!(m.edit_unsigned, "9");
}

#[test]
fn open_tabs_follow_toggles() {
    let mut tabs = OpenTabs::new();
    assert!(tabs.is_empty());
    tabs.insert("Log");
    tabs.insert("Log");
    tabs.insert("Screen");
    assert!(tabs.contains("Log") && tabs.contains("Screen") && !tabs.contains("State"));
    assert_eq!(toggle_panel_step(&mut tabs, "Log", true, false), PanelAction::Close);
    assert!(!tabs.contains("Log"));
    assert_eq!(
        toggle_panel_step(&mut tabs, "Documentation", false, false),
        PanelAction::Open(Placement::Window)
    );
    assert!(tabs.contains("Documentation"));
    tabs.remove("Screen");
    tabs.remove("Documentation");
    assert!(tabs.is_empty());
}

#[test]
fn opening_a_file() {
    let mut open = None;
    let mut code = Some("old".to_string());
    let mut binary = true;
    open_in_editor("a.asm", Some("/w/a.asm".to_string()), Some("NOP".to_string()), &mut open, &mut code, &mut binary);
    assert_eq!(open.as_deref(), Some("/w/a.asm"));
    assert_eq!(code.as_deref(), Some("NOP"));
    assert!(!binary);
    open_in_editor("b.bin", None, None, &mut open, &mut code, &mut binary);
    assert_eq!(open.as_deref(), Some("b.bin"));
    assert!(code.is_none() && binary);
}
