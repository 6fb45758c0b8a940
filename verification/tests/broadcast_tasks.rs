use tokio::runtime::Builder;

use bytifex_utils::sync::broadcast::{Receiver, Sender, SenderDropped};

async fn pop<T: Clone>(receiver: &Receiver<T>) -> Result<T, SenderDropped> {
    loop {
        if let Some(object) = receiver.try_pop()? {
            break Ok(object);
        } else {
            receiver.wake_signal().notified().await;
        }
    }
}

#[test]
fn send() {
    Builder::new_current_thread().build().unwrap().block_on(async {
        let sender = Sender::<String>::new();

        let receiver0 = sender.create_receiver();
        let receiver1 = sender.create_receiver();

        sender.send("0".to_string());
        sender.send("1".to_string());
        {
            let sender = sender.clone();
            sender.send("2".to_string());
            sender.send("3".to_string());
            sender.send("4".to_string());
        }

        assert_eq!(receiver0.try_pop().unwrap(), Some("0".to_string()));
        assert_eq!(receiver0.try_pop().unwrap(), Some("1".to_string()));
        assert_eq!(receiver0.try_pop().unwrap(), Some("2".to_string()));
        assert_eq!(receiver0.try_pop().unwrap(), Some("3".to_string()));
        assert_eq!(receiver0.try_pop().unwrap(), Some("4".to_string()));
        assert_eq!(receiver0.try_pop().unwrap(), None);

        assert_eq!(pop(&receiver1).await.unwrap(), "0".to_string());
        assert_eq!(pop(&receiver1).await.unwrap(), "1".to_string());
        assert_eq!(pop(&receiver1).await.unwrap(), "2".to_string());
        assert_eq!(pop(&receiver1).await.unwrap(), "3".to_string());
        assert_eq!(pop(&receiver1).await.unwrap(), "4".to_string());
        assert_eq!(receiver1.try_pop().unwrap(), None);
    });
}

#[test]
fn drop_sender() {
    Builder::new_current_thread().build().unwrap().block_on(async {
        let (receiver0, receiver1) = {
            let sender = Sender::<usize>::new();
            let ret = (sender.create_receiver(), sender.create_receiver());

            sender.send(7);

            ret
        };

        let receiver2 = receiver0.create_receiver();

        assert_eq!(receiver0.try_pop().unwrap(), Some(7));
        assert_eq!(receiver1.try_pop().unwrap(), Some(7));

        assert_eq!(pop(&receiver0).await, Err(SenderDropped));
        assert_eq!(receiver1.try_pop(), Err(SenderDropped));
        assert_eq!(receiver2.try_pop(), Err(SenderDropped));
    });
}
