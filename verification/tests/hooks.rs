use super_safe_glibc_wrappers::hooks::{
    check_free_target, check_write_directive, format_as_data, printf_plan, vfprintf_plan, FormatPlan, FormatRejection, FreeGuard,
    FreeRejection, FreeStep,
};
use super_safe_glibc_wrappers::maps::PageInfo;

fn page(read: bool, write: bool, execute: bool, file: Option<&str>) -> Option<PageInfo> {
    Some(PageInfo { read, write, execute, file: file.map(|f| f.to_string()) })
}

#[test]
fn constant_format_is_forwarded() {
    let info = page(true, false, false, Some("/usr/bin/prog"));
    assert_eq!(vfprintf_plan(&info, false), Ok(FormatPlan::Forward));
    assert_eq!(printf_plan(&info, false), Ok(FormatPlan::Forward));
    assert_eq!(vfprintf_plan(&info, true), Ok(FormatPlan::Screen));
    assert_eq!(printf_plan(&info, true), Ok(FormatPlan::Screen));
}

#[test]
fn runtime_format_is_printed_as_data() {
    for info in [
        page(true, true, false, Some("[heap]")),
        page(true, true, false, Some("[stack]")),
        page(true, true, false, None),
        page(true, false, false, Some("[heap]")),
        page(true, false, false, Some("[stack]")),
    ] {
        for n_filter in [false, true] {
            assert_eq!(vfprintf_plan(&info, n_filter), Ok(FormatPlan::AsArgument));
            assert_eq!(printf_plan(&info, n_filter), Ok(FormatPlan::AsArgument));
        }
    }
}

#[test]
fn unreadable_or_executable_format() {
    let exec = page(true, false, true, Some("/usr/bin/prog"));
    let unreadable = page(false, false, false, None);
    assert_eq!(vfprintf_plan(&exec, false), Err(FormatRejection::Permissions));
    assert_eq!(vfprintf_plan(&unreadable, false), Err(FormatRejection::Permissions));
    assert_eq!(printf_plan(&exec, false), Ok(FormatPlan::AsArgument));
    assert_eq!(printf_plan(&unreadable, false), Ok(FormatPlan::AsArgument));
    assert_eq!(FormatRejection::Permissions.message(), "invalid format string permissions");
}

#[test]
fn unknown_format_pointer() {
    assert_eq!(vfprintf_plan(&None, false), Err(FormatRejection::UnknownPointer));
    assert_eq!(printf_plan(&None, true), Err(FormatRejection::UnknownPointer));
    assert_eq!(FormatRejection::UnknownPointer.message(), "invalid format string pointer");
}

#[test]
fn n_directive_screen() {
    assert_eq!(check_write_directive(b"Hello, world!%n"), Err(FormatRejection::WriteDirective));
    assert_eq!(check_write_directive(b"Test String%1$hhn"), Err(FormatRejection::WriteDirective));
    assert_eq!(check_write_directive(b"%hhn"), Err(FormatRejection::WriteDirective));
    assert_eq!(check_write_directive(b"%ln"), Err(FormatRejection::WriteDirective));
    assert_eq!(check_write_directive(b"%1$n"), Err(FormatRejection::WriteDirective));
    assert_eq!(check_write_directive(b"x=%d %-5n"), Err(FormatRejection::WriteDirective));
    assert_eq!(check_write_directive(b"%%n"), Ok(()));
    assert_eq!(check_write_directive(b"100%% done, %s"), Ok(()));
    assert_eq!(check_write_directive(b"%d\n%c\n%lx\n%05u\n%s\n%.2f\n"), Ok(()));
    assert_eq!(check_write_directive(b"\xff%d"), Err(FormatRejection::NotUtf8));
    assert_eq!(check_write_directive(b"%"), Ok(()));
    assert_eq!(check_write_directive(b"%5"), Ok(()));
    assert_eq!(check_write_directive(b""), Ok(()));
    assert_eq!(FormatRejection::WriteDirective.message(), "dangerous format string prohibited");
    assert_eq!(FormatRejection::NotUtf8.message(), "invalid format string");
}

#[test]
fn carrying_out_a_plan() {
    assert_eq!(format_as_data(FormatPlan::AsArgument, b"%n"), Ok(true));
    assert_eq!(format_as_data(FormatPlan::Forward, b"%n"), Ok(false));
    assert_eq!(format_as_data(FormatPlan::Screen, b"%d"), Ok(false));
    assert_eq!(
        format_as_data(FormatPlan::Screen, b"Test String%1$hhn"),
        Err(FormatRejection::WriteDirective)
    );
}

#[test]
fn free_before_and_after_main() {
    let mut guard = FreeGuard::new();
    assert_eq!(guard.enter(0x1000, false), FreeStep::ReleaseToLibc);
    assert!(guard.busy);
    guard.leave();
    assert!(!guard.busy);
    assert_eq!(guard.enter(0x1000, true), FreeStep::Inspect);
    guard.leave();
}

#[test]
fn free_of_null_and_nested_free() {
    let mut guard = FreeGuard::new();
    assert_eq!(guard.enter(0, true), FreeStep::Skip);
    assert!(!guard.busy);
    assert_eq!(guard.enter(0x20, false), FreeStep::ReleaseToLibc);
    assert_eq!(guard.enter(0x30, false), FreeStep::Skip);
    assert!(guard.busy);
}

#[test]
fn free_targets() {
    assert_eq!(check_free_target(&page(true, true, false, Some("[heap]"))), Ok(()));
    assert_eq!(check_free_target(&page(true, true, false, None)), Ok(()));
    assert_eq!(check_free_target(&None), Err(FreeRejection::UnknownPointer));
    assert_eq!(
        check_free_target(&page(true, true, false, Some("[stack]"))),
        Err(FreeRejection::Stack)
    );
    assert_eq!(
        check_free_target(&page(true, false, true, Some("/usr/bin/prog"))),
        Err(FreeRejection::Permissions)
    );
    assert_eq!(check_free_target(&page(false, true, false, None)), Err(FreeRejection::Permissions));
    assert_eq!(FreeRejection::UnknownPointer.message(), "freeing invalid pointer");
    assert_eq!(FreeRejection::Permissions.message(), "freeing invalid permissions");
    assert_eq!(FreeRejection::Stack.message(), "freeing in stack");
}
