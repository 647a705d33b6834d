use contrac::Callback;
use contrac::Callbacks;
use contrac::IObserver;
use contrac::ISubject;
use contrac::NotifyCallback;
use contrac::Subject;

#[derive(Debug, Copy, Clone)]
struct Inner {
    value: i32,
    count: u32,
}

enum Handler {
    Hello,
    World,
    Bump { increment: u32 },
}

impl Callback for Handler {
    type Arg = Inner;
    type Out = ();

    fn call(&self, t: &mut Inner) {
        match self {
            Handler::Hello => println!("Hello "),
            Handler::World => println!("World!"),
            Handler::Bump { increment } => {
                t.count += increment;
                println!("Modified: {:?}", t);
            }
        }
    }
}

struct Outer {
    data: Inner,
    value_modified: NotifyCallback<Handler>,
}

impl Outer {
    fn new() -> Outer {
        Outer {
            data: Inner { value: 0, count: 0 },
            value_modified: NotifyCallback::new(),
        }
    }

    fn set_value(&mut self, v: i32) {
        self.data.value = v;
        self.value_modified.invoke(&mut self.data);
    }

    fn get_value(&self) -> Inner {
        self.data
    }
}

#[test]
fn does_it_work() {
    let increment = 1;
    let mut test = Outer::new();
    test.value_modified.add(Handler::Hello);
    test.value_modified.add(Handler::World);
    test.value_modified.add(Handler::Bump { increment });

    println!("Initial: {:?}", test.get_value());
    test.set_value(10);
    let test = test;
    let v = test.get_value();
    println!("Final: {:?}", v);
    assert_eq!(v.value, 10);
    assert_eq!(v.count, 1);
}

struct Doubler;

impl Callback for Doubler {
    type Arg = u32;
    type Out = u32;

    fn call(&self, t: &mut u32) -> u32 {
        *t *= 2;
        *t
    }
}

#[test]
fn callbacks_collect_one_result_per_handler() {
    let mut list: Callbacks<Doubler> = Callbacks::new();
    list.add(Doubler);
    list.add(Doubler);
    list.add(Doubler);
    let mut value: u32 = 1;
    let results = list.invoke(&mut value);
    assert_eq!(results, vec![2, 4, 8]);
    assert_eq!(value, 8);
}

struct Probe;

impl IObserver for Probe {
    fn update(&self) {}
}

#[test]
fn subject_attach_detach() {
    let mut subject: Subject<Probe> = Subject::new();
    assert_eq!(subject.observers().len(), 0);
    subject.attach(Probe);
    subject.attach(Probe);
    assert_eq!(subject.observers().len(), 2);
    subject.notify_observers();
    subject.detach(5);
    assert_eq!(subject.observers().len(), 2);
    subject.detach(0);
    assert_eq!(subject.observers().len(), 1);
}
