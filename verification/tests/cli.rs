use sanity::cli::{Args, Commands};

#[test]
fn command_defaults_to_build() {
    let args = Args::new(None, false, false, false);
    assert_eq!(args.command(), Commands::Build);
}

#[test]
fn command_is_the_one_given() {
    for given in [
        Commands::Build,
        Commands::Clean,
        Commands::Watch,
        Commands::Server { port: 8000 },
        Commands::LuaLib,
    ] {
        assert_eq!(Args::new(Some(given), false, false, false).command(), given);
    }
}

#[test]
fn a_build_is_for_production() {
    assert!(Args::new(None, false, false, false).prod());
    assert!(Args::new(Some(Commands::Build), false, false, false).prod());
}

#[test]
fn other_commands_are_not_for_production_unless_forced() {
    for given in [Commands::Clean, Commands::Watch, Commands::Server { port: 1 }, Commands::LuaLib] {
        assert!(!Args::new(Some(given), false, false, false).prod());
        assert!(Args::new(Some(given), true, false, false).prod());
    }
}

#[test]
fn the_flags_are_kept() {
    let args = Args::new(Some(Commands::Watch), false, true, false);
    assert!(args.antidote());
    assert!(!args.profile_build_times());
    let args = Args::new(Some(Commands::Watch), false, false, true);
    assert!(!args.antidote());
    assert!(args.profile_build_times());
}
