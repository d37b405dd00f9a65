use simkernel::context::Context;
use simkernel::partitions::FirstValue;
use simkernel::reports::Report;
use simkernel::reports::ReportItemHandler;
use simkernel::reports::ReportsContext;

#[derive(Clone, Copy, Debug, PartialEq)]
enum Sink {
    Table,
    Other,
}

type Sim = Context<Sink, (), FirstValue>;

struct TestItem {
    a: usize,
    b: bool,
}

struct TestReport {}
impl Report for TestReport {
    type Item = TestItem;

    const INDEX: usize = 0;
}

struct OtherReport {}
impl Report for OtherReport {
    type Item = u8;

    const INDEX: usize = 1;
}

fn release_report_items(context: &mut Sim, writer: &mut csv::Writer<Vec<u8>>) {
    for item in [
        TestItem { a: 23, b: true },
        TestItem { a: 29, b: false },
        TestItem { a: 2, b: true },
    ] {
        if let Some((sink, item)) = context.release_report_item::<TestReport>(item) {
            assert_eq!(sink, Sink::Table);
            writer
                .write_record([item.a.to_string(), item.b.to_string()])
                .unwrap();
        }
    }
}

#[test]
fn reports_test() {
    let mut context = Sim::new();
    let mut writer = csv::Writer::from_writer(vec![]);
    writer.write_record(["a", "b"]).unwrap();
    context.set_report_item_handler::<TestReport>(Sink::Table);
    release_report_items(&mut context, &mut writer);
    let string = String::from_utf8(writer.into_inner().unwrap()).unwrap();
    assert_eq!(string, "a,b\n23,true\n29,false\n2,true\n");
}

#[test]
fn item_without_handler_is_dropped() {
    let mut context = Sim::new();
    assert!(context.release_report_item::<OtherReport>(7).is_none());
    context.set_report_item_handler::<TestReport>(Sink::Table);
    assert!(context.release_report_item::<OtherReport>(7).is_none());
    context.set_report_item_handler::<OtherReport>(Sink::Table);
    context.set_report_item_handler::<OtherReport>(Sink::Other);
    assert_eq!(context.release_report_item::<OtherReport>(7), Some((Sink::Other, 7)));
    assert_eq!(ReportItemHandler::new(Sink::Other).callback, Sink::Other);
}
