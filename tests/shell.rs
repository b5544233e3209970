use nvm_core::shell::{
    build_shell_block, choose_shell_config, get_path_instructions, with_shell_block,
    without_shell_block, ShellRc, ShellType, BLOCK_END, BLOCK_START,
};

#[test]
fn shell_block_texts() {
    let b = build_shell_block("/home/u/.nvm", ShellType::Bash);
    assert_eq!(
        b,
        "# >>> nvm-rs >>>\nexport NVM_HOME=\"/home/u/.nvm\"\nexport NVM_BIN=\"$NVM_HOME/bin\"\nexport NVM_NODE=\"$NVM_HOME/current/bin\"\nexport PATH=\"$NVM_BIN:$NVM_NODE:$PATH\"\n# <<< nvm-rs <<<\n"
    );
    let f = build_shell_block("/home/u/.nvm", ShellType::Fish);
    assert!(f.starts_with(BLOCK_START));
    assert!(f.contains("set -gx NVM_HOME \"/home/u/.nvm\""));
    assert!(f.contains("fish_add_path $NVM_BIN $NVM_NODE"));
    assert!(f.ends_with("# <<< nvm-rs <<<\n"));
}

#[test]
fn block_added_once() {
    let block = build_shell_block("/x", ShellType::Zsh);
    let once = with_shell_block("alias ll='ls -l'", &block);
    assert_eq!(once, format!("alias ll='ls -l'\n{}", block));
    let twice = with_shell_block(&once, &block);
    assert_eq!(twice, once);
    assert_eq!(with_shell_block("", &block), block);
    assert_eq!(with_shell_block("a\n", &block), format!("a\n{}", block));
}

#[test]
fn block_removed() {
    let block = build_shell_block("/x", ShellType::Bash);
    let text = format!("one\r\n{}two", block);
    assert_eq!(without_shell_block(&text), "one\ntwo\n");
    assert_eq!(without_shell_block(""), "");
    assert_eq!(without_shell_block("a\n\nb"), "a\n\nb\n");
    let indented = format!("x\n  {}  \ny\n{}\nz\n", BLOCK_START, BLOCK_END);
    assert_eq!(without_shell_block(&indented), "x\nz\n");
}

#[test]
fn shell_config_choice() {
    assert_eq!(choose_shell_config("/usr/bin/fish", true, true, true), (ShellRc::FishConfig, ShellType::Fish));
    assert_eq!(choose_shell_config("/bin/zsh", false, false, false), (ShellRc::Zshrc, ShellType::Zsh));
    assert_eq!(choose_shell_config("/bin/bash", false, true, false), (ShellRc::BashProfile, ShellType::Bash));
    assert_eq!(choose_shell_config("/bin/bash", true, true, false), (ShellRc::Bashrc, ShellType::Bash));
    assert_eq!(choose_shell_config("", false, false, true), (ShellRc::Zshrc, ShellType::Zsh));
    assert_eq!(choose_shell_config("", false, false, false), (ShellRc::Bashrc, ShellType::Bash));
}

#[test]
fn windows_path_instructions() {
    let text = get_path_instructions("C:\\nvm");
    assert!(text.contains("$env:PATH += \";C:\\nvm\""));
    assert!(text.starts_with("Para agregar nvm al PATH"));
}
